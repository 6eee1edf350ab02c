//! Unit tests of the library's pieces: the scope table, the interner,
//! the instruction encoding, values, and the decimal formatter.

use rlox::chunk::disassemble::read_instruction;
use rlox::chunk::Chunk;
use rlox::compiler::{compile, Compiler};
use rlox::instructions::{Op, Opcode};
use rlox::scanner::{Token, TokenKind};
use rlox::text::dec_string;
use rlox::value::{StringInterns, Value};

fn id_token(name: String) -> Token {
    Token { kind: TokenKind::Identifier, lexeme: name, line: 0 }
}

#[test]
fn locals_test() {
    let mut compiler = Compiler::new();

    let x = id_token("x".to_string());
    let y = id_token("y".to_string());
    let z = id_token("z".to_string());

    compiler.begin_scope();
    compiler.add_local(&x).unwrap();
    compiler.mark_initialized();
    compiler.add_local(&y).unwrap();
    compiler.mark_initialized();

    assert_eq!(compiler.local_count(), 2);

    assert_eq!(compiler.local(0).unwrap().name.lexeme, "x");
    assert_eq!(compiler.local(1).unwrap().name.lexeme, "y");

    compiler.begin_scope();
    compiler.add_local(&z).unwrap();
    compiler.mark_initialized();

    assert_eq!(compiler.local_count(), 3);
    assert_eq!(compiler.local(2).unwrap().name.lexeme, "z");

    compiler.end_scope();
    assert_eq!(compiler.local_count(), 2);
    assert!(compiler.local(2).is_none());

    compiler.end_scope();
    assert_eq!(compiler.local_count(), 0);
    assert!(compiler.local(1).is_none());
    assert!(compiler.local(1).is_none());
}

#[test]
fn equal_strings_intern() {
    let mut interns = StringInterns::new();
    let s1 = interns.get_or_intern("foo");
    let s2 = interns.get_or_intern("foo");
    let s3 = interns.get_or_intern("bar");

    assert!(s1.id == s2.id, "s1 and s2 are not pointing to the same data");
    assert!(s1.id != s3.id, "s1 and s3 are pointing to the same data");
}

#[test]
fn produces_eq_vals() {
    let mut interns = StringInterns::new();
    let v1 = interns.build_string_value("foo");
    let v2 = interns.build_string_value("foo");
    let v3 = interns.build_string_value("bar");
    assert_eq!(v1, v2);
    assert_ne!(v1, v3);
}

#[test]
fn interner_sweeps_and_reuses_nothing() {
    let mut interns = StringInterns::new();
    let foo = interns.get_or_intern("foo");
    let bar = interns.get_or_intern("bar");
    assert_ne!(foo.id, bar.id);
    // foo stays referenced; bar's slot is swept.
    interns.clean(&vec![foo.id]);
    let foo2 = interns.get_or_intern("foo");
    assert_eq!(foo.id, foo2.id);
    // bar's old identity is gone for good: interning it again gives a
    // fresh identity.
    let bar2 = interns.get_or_intern("bar");
    assert_ne!(bar.id, bar2.id);
}

#[test]
fn opcode_bytes_round_trip() {
    let mut count = 0;
    for b in 0..=255u8 {
        if let Some(oc) = Opcode::from_byte(b) {
            assert_eq!(oc.to_byte(), b);
            count += 1;
        }
    }
    assert_eq!(count, 24);
    assert_eq!(Opcode::from_byte(0), None);
    assert_eq!(Opcode::from_byte(25), None);
    assert_eq!(Opcode::from_byte(Opcode::Loop.to_byte()), Some(Opcode::Loop));
}

#[test]
fn chunk_lines_run_parallel_to_code() {
    let mut interns = StringInterns::new();
    let mut errors = String::new();
    let chunk = compile(
        "var a = 1;\nif (a < 2) { print a; }\n".to_string(),
        &mut interns,
        &mut errors,
    )
    .unwrap();
    assert_eq!(errors, "");
    assert_eq!(chunk.code.len(), chunk.lines.len());
}

#[test]
fn disassembly_round_trip() {
    // Compile a program with jumps, read every instruction back, then
    // re-emit the instructions into a fresh chunk: the same bytes come
    // out.
    let mut interns = StringInterns::new();
    let mut errors = String::new();
    let chunk = compile(
        "var i = 0; while (i < 2) { if (i == 1) print i; i = i + 1; }".to_string(),
        &mut interns,
        &mut errors,
    )
    .unwrap();
    let mut ops: Vec<Op> = Vec::new();
    let mut offset = 0;
    while offset < chunk.code.len() {
        let (op, next) = read_instruction(&chunk, offset).expect("a compiled chunk decodes");
        ops.push(op);
        offset = next;
    }
    assert_eq!(*ops.last().unwrap(), Op::Return);
    let mut rebuilt = Chunk::new();
    for op in &ops {
        rebuilt.write(*op, 1);
    }
    assert_eq!(rebuilt.code, chunk.code);
    // Reading the rebuilt chunk yields the same instruction sequence.
    let mut ops2: Vec<Op> = Vec::new();
    let mut offset2 = 0;
    while offset2 < rebuilt.code.len() {
        let (op, next) = read_instruction(&rebuilt, offset2).unwrap();
        ops2.push(op);
        offset2 = next;
    }
    assert_eq!(ops, ops2);
}

#[test]
fn disassembly_text_mentions_instructions() {
    let mut interns = StringInterns::new();
    let mut errors = String::new();
    let chunk = compile("print 1;".to_string(), &mut interns, &mut errors).unwrap();
    let text = chunk.disassemble("code");
    assert!(text.starts_with("== code ==\n"), "text was: {text}");
    assert!(text.contains("OP_CONSTANT"), "text was: {text}");
    assert!(text.contains("OP_PRINT"), "text was: {text}");
    assert!(text.contains("OP_RETURN"), "text was: {text}");
}

#[test]
fn falseyness() {
    let mut interns = StringInterns::new();
    assert!(Value::Nil.is_falsey());
    assert!(Value::Bool(false).is_falsey());
    assert!(!Value::Bool(true).is_falsey());
    assert!(!interns.build_string_value("").is_falsey());
    let mut errors = String::new();
    let chunk = compile("print 0;".to_string(), &mut interns, &mut errors).unwrap();
    // The number 0 is truthy in this language; read it from the pool.
    let zero = chunk.get_constant_unwrap(0);
    assert!(!zero.is_falsey());
}

#[test]
fn decimal_formatting() {
    assert_eq!(dec_string(0), "0");
    assert_eq!(dec_string(7), "7");
    assert_eq!(dec_string(10), "10");
    assert_eq!(dec_string(90210), "90210");
}

#[test]
fn invalid_bytecode_is_reported() {
    // A hand-built chunk that jumps past its own end leaves the machine
    // without a valid instruction: the stray byte is reported and the
    // run ends as a compile error.
    let mut chunk = Chunk::new();
    chunk.write(Op::Jump(200), 1);
    let mut vm = rlox::vm::VM::new();
    let result = vm.run(&chunk);
    assert_eq!(result, Err(rlox::vm::InterpretError::CompileError));
    assert_eq!(vm.stdout, "Invalid opcode 0\n");
}

#[test]
fn value_stack_slots() {
    let mut stack = rlox::vm::ValueStack::new();
    stack.push(Value::Number(0));
    stack.push(Value::Bool(true));
    assert_eq!(stack.depth(), 2);
    assert_eq!(*stack.peek(), Value::Bool(true));
    assert_eq!(*stack.peek_at(1), Value::Number(0));
    assert_eq!(*stack.get_slot(0), Value::Number(0));
    stack.set_slot(0, Value::Nil);
    assert_eq!(*stack.get_slot(0), Value::Nil);
    assert_eq!(stack.pop(), Value::Bool(true));
    assert_eq!(stack.depth(), 1);
}
