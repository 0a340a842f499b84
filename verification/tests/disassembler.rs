use lucent_lang::chunk::{Chunk, OpCode};
use lucent_lang::disassembler::{
    disassemble_chunk, disassemble_instruction, render_instruction, simple_instruction,
};
use lucent_lang::value::Value;

fn show(bits: u64) -> String {
    f64::from_bits(bits).to_string()
}

fn float(val: f64) -> Value {
    Value::float(val.to_bits())
}

fn write_constants(chunk: Chunk, fill: usize) -> Chunk {
    let mut chunk = chunk;
    let mut left = fill;
    while left > 0 {
        chunk = chunk.write_constant(float(left as f64), 1);
        left -= 1;
    }
    chunk
}

#[test]
fn disassembler_test_disassemble_chunk() {
    let chunk = Chunk::new().write_constant(float(1.2), 1);
    let chunk = chunk.write_chunk(&OpCode::Return, 1);
    assert_eq!(
        "\
== test code ==
0000 1    OP_CONSTANT         0 '1.2'
0002 |    OP_RETURN
",
        disassemble_chunk(&chunk, "test code", &show)
    );
}

#[test]
fn empty_chunk_has_only_the_header() {
    assert_eq!("== empty ==\n", disassemble_chunk(&Chunk::new(), "empty", &show));
    assert_eq!("==  ==\n", disassemble_chunk(&Chunk::new(), "", &show));
}

#[test]
fn every_simple_instruction_has_its_name() {
    let chunk = Chunk::new()
        .write_chunk(&OpCode::Return, 1)
        .write_chunk(&OpCode::Negate, 2)
        .write_chunk(&OpCode::Add, 3)
        .write_chunk(&OpCode::Subtract, 4)
        .write_chunk(&OpCode::Multiply, 5)
        .write_chunk(&OpCode::Divide, 5);
    assert_eq!(
        "\
== ops ==
0000 1    OP_RETURN
0001 2    OP_NEGATE
0002 3    OP_ADD
0003 4    OP_SUBTRACT
0004 5    OP_MULTIPLY
0005 |    OP_DIVIDE
",
        disassemble_chunk(&chunk, "ops", &show)
    );
}

#[test]
fn disassemble_instruction_returns_the_next_offset() {
    let chunk = Chunk::new()
        .write_constant(float(1.2), 1)
        .write_chunk(&OpCode::Return, 1);
    assert_eq!(
        (2, String::from("0000 1    OP_CONSTANT         0 '1.2'\n")),
        disassemble_instruction(&chunk, 0, "", &show)
    );
    assert_eq!(
        (3, String::from("before 0002 |    OP_RETURN\n")),
        disassemble_instruction(&chunk, 2, "before ", &show)
    );
    // the operand of the load, read as an instruction, is a load itself
    assert_eq!(
        (3, String::from("0001 |    OP_CONSTANT         2 UNDEFINED_CONSTANT")),
        disassemble_instruction(&chunk, 1, "", &show)
    );
}

#[test]
fn render_instruction_returns_the_length() {
    let chunk = Chunk::new()
        .write_constant(float(1.2), 1)
        .write_chunk(&OpCode::Return, 1);
    assert_eq!(
        (2, String::from("0000 1    OP_CONSTANT         0 '1.2'\n")),
        render_instruction(&chunk, 0, &show)
    );
    assert_eq!(
        (1, String::from("0002 |    OP_RETURN\n")),
        render_instruction(&chunk, 2, &show)
    );
    assert_eq!(
        (1, String::from("18446744073709551615 ?    UNEXPECTED_END_OF_CHUNK")),
        render_instruction(&chunk, usize::MAX, &show)
    );
}

#[test]
fn simple_instruction_writes_the_name_and_ends_the_line() {
    assert_eq!(
        (1, String::from("0000 1    OP_RETURN\n")),
        simple_instruction("OP_RETURN", String::from("0000 1    "))
    );
    assert_eq!((1, String::from("\n")), simple_instruction("", String::new()));
}

#[test]
fn line_zero_is_a_line_like_any_other() {
    let chunk = Chunk::new()
        .write_chunk(&OpCode::Return, 0)
        .write_chunk(&OpCode::Return, 0)
        .write_chunk(&OpCode::Return, 7)
        .write_chunk(&OpCode::Return, 0);
    assert_eq!(
        "\
== lines ==
0000 0    OP_RETURN
0001 |    OP_RETURN
0002 7    OP_RETURN
0003 0    OP_RETURN
",
        disassemble_chunk(&chunk, "lines", &show)
    );
}

#[test]
fn only_an_offset_without_a_line_is_unknown() {
    let chunk = Chunk::new().write_chunk(&OpCode::Return, 0);
    assert_eq!(Some(0), chunk.get_line(0));
    assert_eq!(None, chunk.get_line(1));
    assert_eq!(
        (1, String::from("0000 0    OP_RETURN\n")),
        disassemble_instruction(&chunk, 0, "", &show)
    );
    assert_eq!(
        (2, String::from("0001 ?    UNEXPECTED_END_OF_CHUNK")),
        disassemble_instruction(&chunk, 1, "", &show)
    );
    assert_eq!(
        (3, String::from("0002 ?    UNEXPECTED_END_OF_CHUNK")),
        disassemble_instruction(&chunk, 2, "", &show)
    );
}

#[test]
fn line_is_compared_with_the_byte_before() {
    let chunk = Chunk::new()
        .write_constant(float(1.0), 12345)
        .write_constant(float(2.0), 12345)
        .write_chunk(&OpCode::Add, 3)
        .write_chunk(&OpCode::Return, 4294967295);
    assert_eq!(
        "\
== lines ==
0000 12345 OP_CONSTANT         0 '1'
0002 |    OP_CONSTANT         1 '2'
0004 3    OP_ADD
0005 4294967295 OP_RETURN
",
        disassemble_chunk(&chunk, "lines", &show)
    );
}

#[test]
fn past_the_end_is_an_unexpected_end() {
    let chunk = Chunk::new().write_chunk(&OpCode::Return, 1);
    assert_eq!(
        (2, String::from("0001 ?    UNEXPECTED_END_OF_CHUNK")),
        disassemble_instruction(&chunk, 1, "", &show)
    );
    assert_eq!(
        (6, String::from("0005 ?    UNEXPECTED_END_OF_CHUNK")),
        disassemble_instruction(&chunk, 5, "", &show)
    );
}

#[test]
fn end_of_chunk_byte_is_an_unexpected_end() {
    let chunk = Chunk::new()
        .write_chunk(&OpCode::UnexpectedEndOfChunk, 1)
        .write_chunk(&OpCode::Return, 1);
    assert_eq!(
        "== end ==\n0000 1    UNEXPECTED_END_OF_CHUNK0001 |    OP_RETURN\n",
        disassemble_chunk(&chunk, "end", &show)
    );
}

#[test]
fn unknown_opcode_shows_its_byte() {
    let chunk = Chunk::new()
        .write_chunk(&OpCode::Invalid(254), 1)
        .write_chunk(&OpCode::Invalid(8), 2);
    assert_eq!(
        "== bad ==\n0000 1    UNKNOWN_OPCODE 2540001 2    UNKNOWN_OPCODE 8",
        disassemble_chunk(&chunk, "bad", &show)
    );
}

#[test]
fn constant_without_operand_is_an_unexpected_end() {
    let chunk = Chunk::new().write_chunk(&OpCode::Constant, 1);
    assert_eq!(
        (2, String::from("0000 1    UNEXPECTED_END_OF_CHUNK")),
        disassemble_instruction(&chunk, 0, "", &show)
    );
    assert_eq!(
        "== cut ==\n0000 1    UNEXPECTED_END_OF_CHUNK",
        disassemble_chunk(&chunk, "cut", &show)
    );
}

#[test]
fn long_constant_without_operand_is_an_unexpected_end() {
    let chunk = Chunk::new().write_chunk(&OpCode::ConstantLong, 1);
    assert_eq!(
        (2, String::from("0000 1    UNEXPECTED_END_OF_CHUNK")),
        disassemble_instruction(&chunk, 0, "", &show)
    );
    let chunk = chunk.write_chunk(&OpCode::Constant, 1);
    assert_eq!(
        (3, String::from("0000 1    UNEXPECTED_END_OF_CHUNK")),
        disassemble_instruction(&chunk, 0, "", &show)
    );
    assert_eq!(
        "== cut ==\n0000 1    UNEXPECTED_END_OF_CHUNK",
        disassemble_chunk(&chunk, "cut", &show)
    );
}

#[test]
fn constant_outside_the_pool_is_undefined() {
    let chunk = Chunk::new()
        .write_chunk(&OpCode::Constant, 1)
        .write_chunk(&OpCode::Invalid(9), 1)
        .write_chunk(&OpCode::Return, 1);
    assert_eq!(
        "== none ==\n0000 1    OP_CONSTANT         9 UNDEFINED_CONSTANT0002 |    OP_RETURN\n",
        disassemble_chunk(&chunk, "none", &show)
    );
    let chunk = Chunk::new()
        .write_chunk(&OpCode::ConstantLong, 1)
        .write_chunk(&OpCode::Invalid(0x12), 1)
        .write_chunk(&OpCode::Invalid(0x34), 1);
    assert_eq!(
        (3, String::from("0000 1    OP_CONSTANT      4660 UNDEFINED_CONSTANT")),
        disassemble_instruction(&chunk, 0, "", &show)
    );
}

#[test]
fn long_constant_is_listed_with_its_index() {
    let chunk = write_constants(Chunk::new(), 256);
    let chunk = chunk
        .write_constant(float(0.5), 2)
        .write_constant(Value::unit(), 3);
    assert_eq!(
        (515, String::from("0512 2    OP_CONSTANT       256 '0.5'\n")),
        disassemble_instruction(&chunk, 512, "", &show)
    );
    assert_eq!(
        (518, String::from("0515 3    OP_CONSTANT       257 'unit'\n")),
        disassemble_instruction(&chunk, 515, "", &show)
    );
    let text = disassemble_chunk(&chunk, "long", &show);
    assert!(text.starts_with("== long ==\n0000 1    OP_CONSTANT         0 '256'\n0002 |    OP_CONSTANT         1 '255'\n"));
    assert!(text.ends_with("0510 |    OP_CONSTANT       255 '1'\n0512 2    OP_CONSTANT       256 '0.5'\n0515 3    OP_CONSTANT       257 'unit'\n"));
    assert_eq!(259, text.lines().count());
}

#[test]
fn offsets_beyond_four_digits_are_not_cut() {
    let chunk = write_constants(Chunk::new(), 4000);
    let chunk = chunk.write_chunk(&OpCode::Return, 1);
    let size = chunk.get_size();
    assert_eq!(2 * 256 + 3 * (4000 - 256) + 1, size);
    assert_eq!(
        (size, String::from("11744 |    OP_RETURN\n")),
        disassemble_instruction(&chunk, size - 1, "", &show)
    );
}

#[test]
fn the_text_of_a_number_is_what_the_host_shows() {
    let chunk = Chunk::new().write_constant(float(1.2), 1);
    assert_eq!(
        "== host ==\n0000 1    OP_CONSTANT         0 '<4608083138725491507>'\n",
        disassemble_chunk(&chunk, "host", &|bits| format!("<{}>", bits))
    );
}

#[test]
fn each_number_is_written_as_the_host_showed_it_that_time() {
    let calls = std::cell::Cell::new(0);
    let counting = |bits: u64| {
        calls.set(calls.get() + 1);
        format!("{}#{}", f64::from_bits(bits), calls.get())
    };
    let chunk = Chunk::new()
        .write_constant(float(1.5), 1)
        .write_constant(Value::unit(), 1)
        .write_chunk(&OpCode::Constant, 2)
        .write_chunk(&OpCode::Constant, 2)
        .write_chunk(&OpCode::Return, 2);
    assert_eq!(
        "\
== counted ==
0000 1    OP_CONSTANT         0 '1.5#1'
0002 |    OP_CONSTANT         1 'unit'
0004 2    OP_CONSTANT         0 '1.5#2'
0006 |    OP_RETURN
",
        disassemble_chunk(&chunk, "counted", &counting)
    );
    assert_eq!(2, calls.get());
}
