use lucent_lang::chunk::{Chunk, OpCode};
use lucent_lang::value::Value;
use std::collections::hash_map::HashMap;

fn compare_floats(a: u64, b: u64, decimal_places: u8) -> bool {
    let factor = 10.0f64.powi(i32::from(decimal_places));
    let a = (f64::from_bits(a) * factor).trunc();
    let b = (f64::from_bits(b) * factor).trunc();
    (a - b).abs() <= 0.0
}

fn float(val: f64) -> Value {
    Value::float(val.to_bits())
}

// Writes 'fill' constants to a chunk
fn write_constants(chunk: Chunk, fill: usize) -> Chunk {
    let mut chunk = chunk;
    let mut left = fill;
    while left > 0 {
        chunk = chunk.write_constant(float(left as f64), 1);
        left -= 1;
    }
    chunk
}

#[test]
fn test_chunks() {
    let chunk = Chunk::new();
    let chunk = chunk.write_chunk(&OpCode::Return, 1);
    assert_eq!(OpCode::Return.to_byte(), chunk.get_byte(0).unwrap());
}

#[test]
fn test_op_codes() {
    let mut map = HashMap::new();
    map.insert(OpCode::Constant, 0);
    map.insert(OpCode::ConstantLong, 1);
    map.insert(OpCode::Return, 2);
    map.insert(OpCode::Negate, 3);
    map.insert(OpCode::Add, 4);
    map.insert(OpCode::Subtract, 5);
    map.insert(OpCode::Multiply, 6);
    map.insert(OpCode::Divide, 7);
    map.insert(OpCode::Invalid(254), 254);
    map.insert(OpCode::UnexpectedEndOfChunk, 255);

    map.iter().for_each(|(code, byte)| {
        let chunk = Chunk::new().write_chunk(code, 1);
        assert_eq!(*byte, chunk.get_byte(0).unwrap());
        assert_eq!(*code, OpCode::from(*byte));
    });
}

#[test]
fn test_constant() {
    let chunk = Chunk::new();
    let chunk = chunk.write_constant(float(1.2), 1);

    assert_eq!(OpCode::Constant.to_byte(), chunk.get_byte(0).unwrap());
    assert!(Value::compare_values(
        float(1.2),
        chunk
            .get_constant(chunk.get_byte(1).unwrap() as usize)
            .unwrap(),
        compare_floats
    ));
}

#[test]
fn test_long_constant() {
    let chunk = Chunk::new();
    let chunk = write_constants(chunk, u8::max_value() as usize + 1);
    let chunk = chunk.write_constant(float(0f64), 1);

    assert_eq!(OpCode::ConstantLong.to_byte(), chunk.get_byte(512).unwrap());
    assert!(Value::compare_values(
        float(0f64),
        chunk
            .get_long_constant(
                chunk.get_byte(513).unwrap() as usize,
                chunk.get_byte(514).unwrap() as usize
            )
            .unwrap(),
        compare_floats
    ));
}

#[test]
fn every_byte_decodes_to_an_opcode_that_encodes_to_it() {
    for byte in 0..=255u8 {
        let op = OpCode::from(byte);
        assert_eq!(byte, op.to_byte());
        if byte > 7 && byte != 255 {
            assert_eq!(OpCode::Invalid(byte), op);
        }
        assert_eq!(byte, OpCode::Invalid(byte).to_byte());
    }
}

#[test]
fn assigned_bytes_decode_to_their_opcodes() {
    assert_eq!(OpCode::Constant, OpCode::from(0));
    assert_eq!(OpCode::ConstantLong, OpCode::from(1));
    assert_eq!(OpCode::Return, OpCode::from(2));
    assert_eq!(OpCode::Negate, OpCode::from(3));
    assert_eq!(OpCode::Add, OpCode::from(4));
    assert_eq!(OpCode::Subtract, OpCode::from(5));
    assert_eq!(OpCode::Multiply, OpCode::from(6));
    assert_eq!(OpCode::Divide, OpCode::from(7));
    assert_eq!(OpCode::Invalid(8), OpCode::from(8));
    assert_eq!(OpCode::Invalid(254), OpCode::from(254));
    assert_eq!(OpCode::UnexpectedEndOfChunk, OpCode::from(255));
}

#[test]
fn new_chunk_is_empty() {
    let chunk = Chunk::new();
    assert_eq!(0, chunk.get_size());
    assert_eq!(None, chunk.get_byte(0));
    assert_eq!(None, chunk.get_line(0));
    assert_eq!(None, chunk.get_constant(0));
    assert_eq!(None, chunk.get_long_constant(0, 0));
    let chunk = Chunk::default();
    assert_eq!(0, chunk.get_size());
    assert_eq!(None, chunk.get_constant(0));
}

#[test]
fn size_is_the_sum_of_the_lengths_written() {
    let chunk = Chunk::new();
    let chunk = chunk.write_chunk(&OpCode::Negate, 3);
    assert_eq!(1, chunk.get_size());
    let chunk = chunk.write_constant(float(2.5), 4);
    assert_eq!(3, chunk.get_size());
    let chunk = chunk.write_chunk(&OpCode::Constant, 5);
    assert_eq!(4, chunk.get_size());
    let chunk = write_constants(chunk, 255);
    assert_eq!(4 + 2 * 255, chunk.get_size());
    let chunk = chunk.write_constant(float(7.0), 6);
    assert_eq!(4 + 2 * 255 + 3, chunk.get_size());
    let chunk = chunk.write_chunk(&OpCode::Return, 7);
    assert_eq!(4 + 2 * 255 + 3 + 1, chunk.get_size());
}

#[test]
fn every_byte_has_the_line_it_was_written_from() {
    let chunk = Chunk::new()
        .write_chunk(&OpCode::Negate, 3)
        .write_constant(float(2.5), 4);
    let chunk = write_constants(chunk, 255);
    let chunk = chunk
        .write_constant(float(7.0), 6)
        .write_chunk(&OpCode::Return, 9);
    let size = chunk.get_size();
    for offset in 0..size {
        assert!(chunk.get_byte(offset).is_some());
        assert!(chunk.get_line(offset).is_some());
    }
    assert_eq!(None, chunk.get_byte(size));
    assert_eq!(None, chunk.get_line(size));
    assert_eq!(Some(3), chunk.get_line(0));
    assert_eq!(Some(4), chunk.get_line(1));
    assert_eq!(Some(4), chunk.get_line(2));
    assert_eq!(Some(1), chunk.get_line(3));
    assert_eq!(Some(6), chunk.get_line(size - 4));
    assert_eq!(Some(6), chunk.get_line(size - 3));
    assert_eq!(Some(6), chunk.get_line(size - 2));
    assert_eq!(Some(9), chunk.get_line(size - 1));
}

#[test]
fn short_constant_holds_its_index_in_one_byte() {
    let chunk = write_constants(Chunk::new(), 255);
    let at = chunk.get_size();
    assert_eq!(510, at);
    let chunk = chunk.write_constant(float(42.0), 2);
    assert_eq!(at + 2, chunk.get_size());
    assert_eq!(Some(0), chunk.get_byte(at));
    assert_eq!(Some(255), chunk.get_byte(at + 1));
    assert_eq!(Some(float(42.0)), chunk.get_constant(255));
    assert_eq!(None, chunk.get_constant(256));
}

#[test]
fn long_constant_holds_its_index_high_byte_first() {
    let chunk = write_constants(Chunk::new(), 0x1234);
    let at = chunk.get_size();
    assert_eq!(2 * 256 + 3 * (0x1234 - 256), at);
    let chunk = chunk.write_constant(float(42.0), 2);
    assert_eq!(at + 3, chunk.get_size());
    assert_eq!(Some(1), chunk.get_byte(at));
    assert_eq!(Some(0x12), chunk.get_byte(at + 1));
    assert_eq!(Some(0x34), chunk.get_byte(at + 2));
    assert_eq!(Some(float(42.0)), chunk.get_long_constant(0x12, 0x34));
    assert_eq!(Some(float(42.0)), chunk.get_constant(0x1234));
    assert_eq!(None, chunk.get_long_constant(0x12, 0x35));
}

#[test]
fn long_operand_keeps_the_two_low_bytes_of_a_larger_index() {
    let chunk = write_constants(Chunk::new(), 65536);
    let at = chunk.get_size();
    let chunk = chunk.write_constant(float(42.0), 2);
    assert_eq!(Some(1), chunk.get_byte(at));
    assert_eq!(Some(0), chunk.get_byte(at + 1));
    assert_eq!(Some(0), chunk.get_byte(at + 2));
    assert_eq!(Some(float(42.0)), chunk.get_constant(65536));
    assert_eq!(Some(float(65536.0)), chunk.get_long_constant(0, 0));
}

#[test]
fn constants_keep_their_indices() {
    let chunk = Chunk::new()
        .write_constant(float(1.0), 1)
        .write_constant(Value::unit(), 1)
        .write_chunk(&OpCode::Add, 2)
        .write_constant(float(3.0), 3);
    assert_eq!(Some(float(1.0)), chunk.get_constant(0));
    assert_eq!(Some(Value::unit()), chunk.get_constant(1));
    assert_eq!(Some(float(3.0)), chunk.get_constant(2));
    assert_eq!(None, chunk.get_constant(3));
    assert_eq!(Some(float(3.0)), chunk.get_long_constant(0, 2));
    assert_eq!(Some(2), chunk.get_byte(6));
}

#[test]
fn long_lookup_of_an_index_beyond_the_machine_finds_nothing() {
    let chunk = write_constants(Chunk::new(), 300);
    assert_eq!(None, chunk.get_long_constant(usize::MAX, usize::MAX));
    assert_eq!(None, chunk.get_long_constant(usize::MAX / 256 + 1, 0));
    assert_eq!(None, chunk.get_long_constant(1, usize::MAX));
    assert_eq!(None, chunk.get_long_constant(0, 300));
    assert_eq!(Some(float(1.0)), chunk.get_long_constant(0, 299));
    assert_eq!(Some(float(1.0)), chunk.get_long_constant(1, 43));
    assert_eq!(Some(float(44.0)), chunk.get_long_constant(1, 0));
}
