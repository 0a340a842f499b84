//! The disassembler: the text of an instruction and of a whole chunk.
//!
//! It never fails: what cannot be decoded is written as a marker in the text.
//! The text of a number is what the function `show` of the host returns for
//! its encoding. Each text is stated twice: as a text that can be written
//! whatever `show` returns (`writes_instruction`, `lists`), and, for a `show`
//! that is a function of its argument, as the text under that function
//! (`instruction_text`, `listing`).

use vstd::prelude::*;
use vstd::string::*;
use crate::chunk::{Chunk, ChunkView, OpCode};
use crate::text::{
    decimal,
    decimal_text,
    digit_value,
    lemma_decimal_denotes,
    left_aligned,
    left_aligned_text,
    right_aligned,
    right_aligned_text,
    zero_padded,
    zero_padded_text,
};
use crate::value::{NumberText, Value, always, gives, renders, shows_all, silent};

verus! {

/// The width to which an offset is padded with zeros.
pub const OFFSET_WIDTH: usize = 4;

/// The width of the column that holds the line.
pub const LINE_WIDTH: usize = 4;

/// The width of the column that holds the name of an instruction with an
/// operand.
pub const NAME_WIDTH: usize = 16;

/// The width of the column that holds the index of a constant.
pub const INDEX_WIDTH: usize = 4;

/// What stands for the line of the byte at an offset: `?` where the chunk has
/// no line for it, `|` where the byte before has the same line, else the
/// line's number.
pub open spec fn line_mark(chunk: ChunkView, offset: int) -> Seq<char> {
    match chunk.line_at(offset) {
        None => "?"@,
        Some(line) => if offset > 0 && chunk.line_at(offset - 1) == Some(line) {
            "|"@
        } else {
            decimal(line as nat)
        },
    }
}

/// The mark of a line is `?` where the chunk has no line for the offset, and
/// nowhere else: a line that the chunk holds is written as `|` or as its
/// number, whatever the number is.
pub proof fn lemma_unknown_line_is_no_line(chunk: ChunkView, offset: int)
    ensures
        line_mark(chunk, offset) == "?"@ <==> chunk.line_at(offset) is None,
        chunk.line_at(offset) matches Some(line) ==> line_mark(chunk, offset) == (if offset > 0
            && chunk.line_at(offset - 1) == Some(line) {
            "|"@
        } else {
            decimal(line as nat)
        }),
{
    reveal_strlit("?");
    reveal_strlit("|");
    match chunk.line_at(offset) {
        None => {},
        Some(line) => {
            lemma_decimal_denotes(line as nat);
            assert(digit_value(decimal(line as nat)[0]) < 10);
            assert(digit_value("?"@[0]) == 10);
            assert("|"@[0] != "?"@[0]);
        },
    }
}

/// What an instruction's text begins with: its offset and its line, each in
/// its column.
pub open spec fn position(chunk: ChunkView, offset: int) -> Seq<char> {
    zero_padded(offset as nat, OFFSET_WIDTH as nat) + " "@ + left_aligned(
        line_mark(chunk, offset),
        LINE_WIDTH as nat,
    ) + " "@
}

/// The number of bytes that the disassembler takes the load at an offset to
/// have: opcode and operand, or one byte less where a long operand lacks even
/// its first byte.
pub open spec fn load_span(chunk: ChunkView, offset: int, is_long: bool) -> nat {
    if is_long && chunk.byte_at(offset + 1) is Some {
        3
    } else {
        2
    }
}

/// What is written for the load at an offset, after its position.
pub open spec fn load_text(chunk: ChunkView, offset: int, is_long: bool, text: NumberText) -> Seq<
    char,
> {
    match chunk.operand_at(offset, is_long) {
        None => "UNEXPECTED_END_OF_CHUNK"@,
        Some(index) => left_aligned("OP_CONSTANT"@, NAME_WIDTH as nat) + " "@ + right_aligned(
            decimal(index),
            INDEX_WIDTH as nat,
        ) + " "@ + (match chunk.named_constant(offset, is_long) {
            None => "UNDEFINED_CONSTANT"@,
            Some(constant) => "'"@ + constant.text(text) + "'\n"@,
        }),
    }
}

/// The number of bytes that the disassembler takes the instruction at an
/// offset to have.
pub open spec fn instruction_len(chunk: ChunkView, offset: int) -> nat {
    match chunk.opcode_at(offset) {
        OpCode::Constant => load_span(chunk, offset, false),
        OpCode::ConstantLong => load_span(chunk, offset, true),
        _ => 1,
    }
}

/// What is written for the instruction at an offset, after its position.
pub open spec fn instruction_body(chunk: ChunkView, offset: int, text: NumberText) -> Seq<char> {
    match chunk.opcode_at(offset) {
        OpCode::Constant => load_text(chunk, offset, false, text),
        OpCode::ConstantLong => load_text(chunk, offset, true, text),
        OpCode::Return => "OP_RETURN"@ + "\n"@,
        OpCode::Negate => "OP_NEGATE"@ + "\n"@,
        OpCode::Add => "OP_ADD"@ + "\n"@,
        OpCode::Subtract => "OP_SUBTRACT"@ + "\n"@,
        OpCode::Multiply => "OP_MULTIPLY"@ + "\n"@,
        OpCode::Divide => "OP_DIVIDE"@ + "\n"@,
        OpCode::UnexpectedEndOfChunk => "UNEXPECTED_END_OF_CHUNK"@,
        OpCode::Invalid(code) => "UNKNOWN_OPCODE "@ + decimal(code as nat),
    }
}

/// The text of the instruction at an offset, where `text` gives the text of
/// each number.
pub open spec fn instruction_text(chunk: ChunkView, offset: int, text: NumberText) -> Seq<char> {
    position(chunk, offset) + instruction_body(chunk, offset, text)
}

/// The text of the instructions from an offset to the end of the stream.
pub open spec fn listing(chunk: ChunkView, offset: int, text: NumberText) -> Seq<char>
    decreases chunk.bytes_from(offset),
{
    if offset < 0 || offset >= chunk.code.len() {
        Seq::empty()
    } else {
        proof {
            lemma_instruction_len_bounds(chunk, offset);
        }
        instruction_text(chunk, offset, text) + listing(
            chunk,
            offset + instruction_len(chunk, offset),
            text,
        )
    }
}

/// The offset of the instruction after the one at an offset.
pub open spec fn next_offset(chunk: ChunkView, offset: int) -> int {
    offset + instruction_len(chunk, offset)
}

/// `out` is a text that can be written for the load at an offset, after its
/// position: where the load names a number, with a text that `show` can return
/// for it; else the one text that there is.
pub open spec fn writes_load<S: Fn(u64) -> String>(
    show: S,
    chunk: ChunkView,
    offset: int,
    is_long: bool,
    out: Seq<char>,
) -> bool {
    if chunk.named_number(offset, is_long) is None {
        out == load_text(chunk, offset, is_long, silent())
    } else {
        exists|shown: Seq<char>| #[trigger]
            gives(show, chunk.named_number(offset, is_long)->0, shown) && out == load_text(
                chunk,
                offset,
                is_long,
                always(shown),
            )
    }
}

/// `out` is a text that can be written for the instruction at an offset: where
/// the instruction loads a number, with a text that `show` can return for it;
/// else the one text that there is, which shows no number.
pub open spec fn writes_instruction<S: Fn(u64) -> String>(
    show: S,
    chunk: ChunkView,
    offset: int,
    out: Seq<char>,
) -> bool {
    if chunk.loaded_number(offset) is None {
        out == instruction_text(chunk, offset, silent())
    } else {
        exists|shown: Seq<char>| #[trigger]
            gives(show, chunk.loaded_number(offset)->0, shown) && out == instruction_text(
                chunk,
                offset,
                always(shown),
            )
    }
}

/// `out` is a text that can be written for the instructions from an offset to
/// the end of the stream: for each of them, in order, a text that can be
/// written for it.
pub open spec fn lists<S: Fn(u64) -> String>(
    show: S,
    chunk: ChunkView,
    offset: int,
    out: Seq<char>,
) -> bool
    decreases chunk.bytes_from(offset),
    via lists_ends::<S>
{
    if offset < 0 || offset >= chunk.code.len() {
        out == Seq::<char>::empty()
    } else {
        exists|line: Seq<char>, rest: Seq<char>|
            #![trigger line + rest]
            writes_instruction(show, chunk, offset, line) && lists(
                show,
                chunk,
                next_offset(chunk, offset),
                rest,
            ) && out == line + rest
    }
}

#[via_fn]
proof fn lists_ends<S: Fn(u64) -> String>(show: S, chunk: ChunkView, offset: int, out: Seq<char>) {
    lemma_instruction_len_bounds(chunk, offset);
}

/// A text for an instruction and then a text for the instructions after it is
/// a text for the instructions from that one on.
pub proof fn lemma_lists_one_more<S: Fn(u64) -> String>(
    show: S,
    chunk: ChunkView,
    offset: int,
    line: Seq<char>,
    rest: Seq<char>,
)
    requires
        0 <= offset < chunk.code.len(),
        writes_instruction(show, chunk, offset, line),
        lists(show, chunk, next_offset(chunk, offset), rest),
    ensures
        lists(show, chunk, offset, line + rest),
{
}

/// Whatever `show` returns, the text of an instruction begins with its
/// position: the offset and the line, each in its column.
pub proof fn lemma_written_instruction_begins_with_position<S: Fn(u64) -> String>(
    show: S,
    chunk: ChunkView,
    offset: int,
    out: Seq<char>,
)
    requires
        writes_instruction(show, chunk, offset, out),
    ensures
        position(chunk, offset).is_prefix_of(out),
        out.len() >= position(chunk, offset).len(),
        out.subrange(0, position(chunk, offset).len() as int) == position(chunk, offset),
{
    match chunk.loaded_number(offset) {
        None => {
            let body = instruction_body(chunk, offset, silent());
            assert(out == position(chunk, offset) + body);
            assert(out.subrange(0, position(chunk, offset).len() as int) =~= position(
                chunk,
                offset,
            ));
        },
        Some(number) => {
            let shown = choose|shown: Seq<char>| #[trigger]
                gives(show, chunk.loaded_number(offset)->0, shown) && out == instruction_text(
                    chunk,
                    offset,
                    always(shown),
                );
            let body = instruction_body(chunk, offset, always(shown));
            assert(out == position(chunk, offset) + body);
            assert(out.subrange(0, position(chunk, offset).len() as int) =~= position(
                chunk,
                offset,
            ));
        },
    }
}

/// The text of an instruction depends on the text of no number but the one
/// that the instruction loads.
pub proof fn lemma_instruction_text_shows_one_number(
    chunk: ChunkView,
    offset: int,
    one: NumberText,
    other: NumberText,
)
    requires
        chunk.loaded_number(offset) matches Some(number) ==> one(number) == other(number),
    ensures
        instruction_text(chunk, offset, one) == instruction_text(chunk, offset, other),
{
}

/// A text that can be written for an instruction is its text under every
/// function that gives the texts that `show` returns.
pub proof fn lemma_written_instruction_under_a_model<S: Fn(u64) -> String>(
    show: S,
    chunk: ChunkView,
    offset: int,
    out: Seq<char>,
    text: NumberText,
)
    requires
        writes_instruction(show, chunk, offset, out),
        renders(show, text),
    ensures
        out == instruction_text(chunk, offset, text),
{
}

/// The text of a whole chunk under a header.
pub open spec fn disassembly(chunk: ChunkView, header: Seq<char>, text: NumberText) -> Seq<char> {
    "== "@ + header + " ==\n"@ + listing(chunk, 0, text)
}

/// Every instruction takes one, two or three bytes.
pub proof fn lemma_instruction_len_bounds(chunk: ChunkView, offset: int)
    ensures
        1 <= instruction_len(chunk, offset) <= 3,
{
}

/// The text of the chunk that loads one constant and returns, both written
/// from one line: the load with the index 0 and the constant between quotes,
/// then the return at offset 2 with the mark of a line that was already
/// shown.
pub proof fn lemma_listing_of_a_load_and_a_return(
    constant: Value,
    line: u32,
    header: Seq<char>,
    text: NumberText,
)
    ensures
        disassembly(
            ChunkView::empty().write_constant(constant, line).write_chunk(OpCode::Return, line),
            header,
            text,
        ) == "== "@ + header + " ==\n"@ + "0000 "@ + left_aligned(
            decimal(line as nat),
            LINE_WIDTH as nat,
        ) + " OP_CONSTANT         0 '"@ + constant.text(text) + "'\n"@
            + "0002 |    OP_RETURN\n"@,
{
    let chunk = ChunkView::empty().write_constant(constant, line).write_chunk(OpCode::Return, line);
    assert(chunk.code =~= seq![0u8, 0u8, 2u8]);
    assert(chunk.lines =~= seq![line, line, line]);
    assert(chunk.constants =~= seq![constant]);
    reveal_strlit("0000 ");
    reveal_strlit(" ");
    reveal_strlit("|");
    reveal_strlit("OP_CONSTANT");
    reveal_strlit(" OP_CONSTANT         0 '");
    reveal_strlit("'");
    reveal_strlit("'\n");
    reveal_strlit("OP_RETURN");
    reveal_strlit("\n");
    reveal_strlit("0002 |    OP_RETURN\n");
    assert(decimal(0) =~= seq!['0']);
    assert(decimal(2) =~= seq!['2']);
    assert(zero_padded(0, 4) =~= seq!['0', '0', '0', '0']);
    assert(zero_padded(2, 4) =~= seq!['0', '0', '0', '2']);
    assert(left_aligned("|"@, 4) =~= seq!['|', ' ', ' ', ' ']);
    assert(right_aligned(decimal(0), 4) =~= seq![' ', ' ', ' ', '0']);
    assert(left_aligned("OP_CONSTANT"@, 16) =~= "OP_CONSTANT"@ + seq![' ', ' ', ' ', ' ', ' ']);
    let mark = left_aligned(decimal(line as nat), LINE_WIDTH as nat);
    let shown = constant.text(text);
    assert(chunk.opcode_at(0) == OpCode::Constant);
    assert(chunk.operand_at(0, false) == Some(0nat));
    assert(chunk.named_constant(0, false) == Some(constant));
    assert(instruction_text(chunk, 0, text) =~= "0000 "@ + mark
        + " OP_CONSTANT         0 '"@ + shown + "'\n"@);
    assert(instruction_len(chunk, 0) == 2);
    assert(chunk.opcode_at(2) == OpCode::Return);
    assert(line_mark(chunk, 2) == "|"@);
    assert(instruction_text(chunk, 2, text) =~= "0002 |    OP_RETURN\n"@);
    assert(instruction_len(chunk, 2) == 1);
    assert(listing(chunk, 3, text) =~= Seq::<char>::empty());
    assert(listing(chunk, 2, text) =~= "0002 |    OP_RETURN\n"@) by {
        assert(listing(chunk, 2, text) == instruction_text(chunk, 2, text) + listing(
            chunk,
            3,
            text,
        ));
    }
    assert(listing(chunk, 0, text) == instruction_text(chunk, 0, text) + listing(chunk, 2, text));
    assert(disassembly(chunk, header, text) =~= "== "@ + header + " ==\n"@ + "0000 "@ + mark
        + " OP_CONSTANT         0 '"@ + shown + "'\n"@ + "0002 |    OP_RETURN\n"@);
}

/// The text of a whole chunk: a header line, then every instruction from the
/// start of the stream to its end.
pub fn disassemble_chunk<S>(chunk: &Chunk, header: &str, show: &S) -> (out: String) where
    S: Fn(u64) -> String,

    requires
        shows_all(*show),
    ensures
        exists|body: Seq<char>| #[trigger]
            lists(*show, chunk@, 0, body) && out@ == "== "@ + header@ + " ==\n"@ + body,
        forall|text: NumberText| #[trigger]
            renders(*show, text) ==> out@ == disassembly(chunk@, header@, text),
{
    let mut result = String::from_str("== ");
    result.append(header);
    result.append(" ==\n");
    let ghost head = result@;
    let out = disassemble_loop(chunk, 0, result, show);
    assert forall|text: NumberText| #[trigger] renders(*show, text) implies out@
        == disassembly(chunk@, header@, text) by {
        assert(out@ =~= disassembly(chunk@, header@, text));
    }
    proof {
        let body = choose|body: Seq<char>| #[trigger]
            lists(*show, chunk@, 0, body) && out@ == head + body;
        assert(lists(*show, chunk@, 0, body) && out@ == "== "@ + header@ + " ==\n"@ + body);
    }
    out
}

/// A text that can be written for the instructions from an offset on is their
/// text under every function that gives the texts that `show` returns.
pub proof fn lemma_listed_under_a_model<S: Fn(u64) -> String>(
    show: S,
    chunk: ChunkView,
    offset: int,
    out: Seq<char>,
    text: NumberText,
)
    requires
        lists(show, chunk, offset, out),
        renders(show, text),
    ensures
        out == listing(chunk, offset, text),
    decreases chunk.bytes_from(offset),
{
    if 0 <= offset < chunk.code.len() {
        let (line, rest) = choose|line: Seq<char>, rest: Seq<char>|
            #![trigger line + rest]
            writes_instruction(show, chunk, offset, line) && lists(
                show,
                chunk,
                next_offset(chunk, offset),
                rest,
            ) && out == line + rest;
        lemma_instruction_len_bounds(chunk, offset);
        lemma_written_instruction_under_a_model(show, chunk, offset, line, text);
        lemma_listed_under_a_model(show, chunk, next_offset(chunk, offset), rest, text);
    }
}

/// Whatever can be written for the instructions from `at` on, `written` and
/// then that can be written for the instructions from `start` on.
spec fn listed_from<S: Fn(u64) -> String>(
    show: S,
    chunk: ChunkView,
    start: int,
    at: int,
    written: Seq<char>,
) -> bool {
    forall|rest: Seq<char>| #[trigger]
        lists(show, chunk, at, rest) ==> lists(show, chunk, start, written + rest)
}

/// Nothing is written when the listing starts.
proof fn lemma_listed_starts<S: Fn(u64) -> String>(show: S, chunk: ChunkView, start: int)
    ensures
        listed_from(show, chunk, start, start, Seq::<char>::empty()),
{
    assert forall|rest: Seq<char>| #[trigger] lists(show, chunk, start, rest) implies lists(
        show,
        chunk,
        start,
        Seq::<char>::empty() + rest,
    ) by {
        assert(Seq::<char>::empty() + rest =~= rest);
    }
}

/// One more instruction is written.
proof fn lemma_listed_goes_on<S: Fn(u64) -> String>(
    show: S,
    chunk: ChunkView,
    start: int,
    at: int,
    written: Seq<char>,
    line: Seq<char>,
)
    requires
        0 <= at < chunk.code.len(),
        listed_from(show, chunk, start, at, written),
        writes_instruction(show, chunk, at, line),
    ensures
        listed_from(show, chunk, start, next_offset(chunk, at), written + line),
{
    assert forall|rest: Seq<char>| #[trigger]
        lists(show, chunk, next_offset(chunk, at), rest) implies lists(
        show,
        chunk,
        start,
        (written + line) + rest,
    ) by {
        lemma_lists_one_more(show, chunk, at, line, rest);
        assert((written + line) + rest =~= written + (line + rest));
    }
}

/// The listing is over where the stream is.
proof fn lemma_listed_ends<S: Fn(u64) -> String>(
    show: S,
    chunk: ChunkView,
    start: int,
    at: int,
    written: Seq<char>,
)
    requires
        at >= chunk.code.len(),
        listed_from(show, chunk, start, at, written),
    ensures
        lists(show, chunk, start, written),
{
    assert(lists(show, chunk, at, Seq::<char>::empty()));
    assert(written + Seq::<char>::empty() =~= written);
}

/// Writes every instruction from an offset to the end of the stream after
/// `result`.
fn disassemble_loop<S>(chunk: &Chunk, instruction: usize, result: String, show: &S) -> (out: String)
    where S: Fn(u64) -> String
    requires
        shows_all(*show),
    ensures
        exists|body: Seq<char>| #[trigger]
            lists(*show, chunk@, instruction as int, body) && out@ == result@ + body,
        forall|text: NumberText| #[trigger]
            renders(*show, text) ==> out@ == result@ + listing(chunk@, instruction as int, text),
{
    let size = chunk.get_size();
    let mut out = result;
    let mut at = instruction;
    let ghost mut written = Seq::<char>::empty();
    proof {
        assert(out@ =~= result@ + written);
        lemma_listed_starts(*show, chunk@, instruction as int);
    }
    while at < size
        invariant
            shows_all(*show),
            size == chunk@.code.len(),
            instruction <= at,
            out@ == result@ + written,
            listed_from(*show, chunk@, instruction as int, at as int, written),
        decreases size - at,
    {
        let (len, line) = render_instruction(chunk, at, show);
        out.append(line.as_str());
        proof {
            lemma_listed_goes_on(*show, chunk@, instruction as int, at as int, written, line@);
            assert(out@ =~= result@ + (written + line@));
            written = written + line@;
        }
        if len >= size - at {
            proof {
                lemma_listed_ends(
                    *show,
                    chunk@,
                    instruction as int,
                    next_offset(chunk@, at as int),
                    written,
                );
                lemma_listed_under_every_model(*show, chunk@, instruction as int, written);
            }
            return out;
        }
        at += len;
    }
    proof {
        lemma_listed_ends(*show, chunk@, instruction as int, at as int, written);
        lemma_listed_under_every_model(*show, chunk@, instruction as int, written);
    }
    out
}

/// A text that can be written for the instructions from an offset on is their
/// text under every function that gives the texts that `show` returns.
proof fn lemma_listed_under_every_model<S: Fn(u64) -> String>(
    show: S,
    chunk: ChunkView,
    offset: int,
    out: Seq<char>,
)
    requires
        lists(show, chunk, offset, out),
    ensures
        forall|text: NumberText| #[trigger] renders(show, text) ==> out == listing(
            chunk,
            offset,
            text,
        ),
{
    assert forall|text: NumberText| #[trigger] renders(show, text) implies out == listing(
        chunk,
        offset,
        text,
    ) by {
        lemma_listed_under_a_model(show, chunk, offset, out, text);
    }
}

/// Writes the instruction at an offset after `result`, and returns the offset
/// of the instruction that follows it.
pub fn disassemble_instruction<S>(chunk: &Chunk, offset: usize, result: &str, show: &S) -> (out: (
    usize,
    String,
)) where S: Fn(u64) -> String
    requires
        shows_all(*show),
        offset + instruction_len(chunk@, offset as int) <= usize::MAX,
    ensures
        out.0 == offset + instruction_len(chunk@, offset as int),
        (result@ + position(chunk@, offset as int)).is_prefix_of(out.1@),
        exists|line: Seq<char>| #[trigger]
            writes_instruction(*show, chunk@, offset as int, line) && out.1@ == result@ + line,
        forall|text: NumberText| #[trigger]
            renders(*show, text)
                ==> out.1@ == result@ + instruction_text(chunk@, offset as int, text),
{
    let (len, line) = render_instruction(chunk, offset, show);
    let mut text = String::from_str(result);
    text.append(line.as_str());
    assert(writes_instruction(*show, chunk@, offset as int, line@) && text@ == result@ + line@);
    proof {
        let position = position(chunk@, offset as int);
        assert(text@.subrange(0, (result@ + position).len() as int) =~= result@ + position);
    }
    (offset + len, text)
}

/// The text of the instruction at an offset, and the number of bytes that the
/// instruction takes.
pub fn render_instruction<S>(chunk: &Chunk, offset: usize, show: &S) -> (out: (usize, String)) where
    S: Fn(u64) -> String,

    requires
        shows_all(*show),
    ensures
        out.0 == instruction_len(chunk@, offset as int),
        position(chunk@, offset as int).is_prefix_of(out.1@),
        writes_instruction(*show, chunk@, offset as int, out.1@),
        forall|text: NumberText| #[trigger]
            renders(*show, text) ==> out.1@ == instruction_text(chunk@, offset as int, text),
{
    let result = position_text(chunk, offset);
    let instruction = match chunk.get_byte(offset) {
        Some(i) => OpCode::from(i),
        None => OpCode::UnexpectedEndOfChunk,
    };
    assert(instruction == chunk@.opcode_at(offset as int));
    let out = match instruction {
        OpCode::Constant => constant_instruction("OP_CONSTANT", false, chunk, offset, result, show),
        OpCode::ConstantLong => constant_instruction(
            "OP_CONSTANT",
            true,
            chunk,
            offset,
            result,
            show,
        ),
        OpCode::Return => simple_instruction("OP_RETURN", result),
        OpCode::Negate => simple_instruction("OP_NEGATE", result),
        OpCode::Add => simple_instruction("OP_ADD", result),
        OpCode::Subtract => simple_instruction("OP_SUBTRACT", result),
        OpCode::Multiply => simple_instruction("OP_MULTIPLY", result),
        OpCode::Divide => simple_instruction("OP_DIVIDE", result),
        OpCode::UnexpectedEndOfChunk => {
            let mut text = result;
            text.append("UNEXPECTED_END_OF_CHUNK");
            (1, text)
        },
        OpCode::Invalid(code) => {
            let mut text = result;
            text.append("UNKNOWN_OPCODE ");
            text.append(decimal_text(code as usize).as_str());
            assert(text@ =~= position(chunk@, offset as int) + ("UNKNOWN_OPCODE "@ + decimal(
                code as nat,
            )));
            (1, text)
        },
    };
    proof {
        lemma_written_instruction_begins_with_position(*show, chunk@, offset as int, out.1@);
        assert forall|text: NumberText| #[trigger] renders(*show, text) implies out.1@
            == instruction_text(chunk@, offset as int, text) by {
            lemma_written_instruction_under_a_model(*show, chunk@, offset as int, out.1@, text);
        }
    }
    out
}

/// The offset and the line of an instruction, each in its column.
fn position_text(chunk: &Chunk, offset: usize) -> (out: String)
    ensures
        out@ == position(chunk@, offset as int),
{
    let mark = match chunk.get_line(offset) {
        None => String::from_str("?"),
        Some(line) => {
            let repeated = offset > 0 && match chunk.get_line(offset - 1) {
                Some(previous) => previous == line,
                None => false,
            };
            if repeated {
                String::from_str("|")
            } else {
                decimal_text(line as usize)
            }
        },
    };
    let mut out = zero_padded_text(offset, OFFSET_WIDTH);
    out.append(" ");
    out.append(left_aligned_text(mark.as_str(), LINE_WIDTH).as_str());
    out.append(" ");
    out
}

/// Writes an instruction without operands after `result`: its name and the end
/// of the line. Such an instruction takes one byte.
pub fn simple_instruction(name: &str, result: String) -> (out: (usize, String))
    ensures
        out.0 == 1,
        out.1@ == result@ + (name@ + "\n"@),
{
    let mut text = result;
    text.append(name);
    text.append("\n");
    assert(text@ =~= result@ + (name@ + "\n"@));
    (1, text)
}

/// Writes a load after `result`: its name, the index that its operand holds
/// and the constant found there. Where the stream ends inside the operand, or
/// the pool has nothing at the index, it says so instead.
fn constant_instruction<S>(
    name: &str,
    is_long: bool,
    chunk: &Chunk,
    offset: usize,
    result: String,
    show: &S,
) -> (out: (usize, String)) where S: Fn(u64) -> String
    requires
        shows_all(*show),
        offset < chunk@.code.len(),
        name@ == "OP_CONSTANT"@,
    ensures
        out.0 == load_span(chunk@, offset as int, is_long),
        exists|body: Seq<char>| #[trigger]
            writes_load(*show, chunk@, offset as int, is_long, body) && out.1@ == result@ + body,
{
    proof {
        chunk.lemma_lengths_fit();
    }
    let mut text = result;
    let first = match chunk.get_byte(offset + 1) {
        Some(i) => i as usize,
        None => {
            text.append("UNEXPECTED_END_OF_CHUNK");
            assert(writes_load(*show, chunk@, offset as int, is_long, "UNEXPECTED_END_OF_CHUNK"@));
            return (2, text);
        },
    };
    let constant = if is_long {
        match chunk.get_byte(offset + 2) {
            Some(i) => first * 256 + i as usize,
            None => {
                text.append("UNEXPECTED_END_OF_CHUNK");
                assert(writes_load(
                    *show,
                    chunk@,
                    offset as int,
                    is_long,
                    "UNEXPECTED_END_OF_CHUNK"@,
                ));
                return (3, text);
            },
        }
    } else {
        first
    };
    let len: usize = if is_long {
        3
    } else {
        2
    };
    assert(chunk@.operand_at(offset as int, is_long) == Some(constant as nat));
    text.append(left_aligned_text(name, NAME_WIDTH).as_str());
    text.append(" ");
    text.append(right_aligned_text(decimal_text(constant).as_str(), INDEX_WIDTH).as_str());
    text.append(" ");
    let ghost head = left_aligned("OP_CONSTANT"@, NAME_WIDTH as nat) + " "@ + right_aligned(
        decimal(constant as nat),
        INDEX_WIDTH as nat,
    ) + " "@;
    assert(text@ =~= result@ + head);
    let value = match chunk.get_constant(constant) {
        Some(i) => i,
        None => {
            text.append("UNDEFINED_CONSTANT");
            assert(text@ =~= result@ + (head + "UNDEFINED_CONSTANT"@));
            assert(writes_load(
                *show,
                chunk@,
                offset as int,
                is_long,
                head + "UNDEFINED_CONSTANT"@,
            ));
            return (len, text);
        },
    };
    let shown = value.to_text(show);
    text.append("'");
    text.append(shown.as_str());
    text.append("'\n");
    proof {
        let body = head + ("'"@ + shown@ + "'\n"@);
        assert(text@ =~= result@ + body);
        assert(chunk@.named_constant(offset as int, is_long) == Some(value));
        if value.data is Float {
            assert(show.ensures((value.bits(),), shown));
            assert(value.text(always(shown@)) == shown@);
            assert(body == load_text(chunk@, offset as int, is_long, always(shown@)));
            assert(chunk@.named_number(offset as int, is_long) == Some(value.bits()));
            assert(gives(*show, chunk@.named_number(offset as int, is_long)->0, shown@));
        } else {
            assert(value.text(silent()) == shown@);
            assert(body == load_text(chunk@, offset as int, is_long, silent()));
            assert(chunk@.named_number(offset as int, is_long) is None);
        }
        assert(writes_load(*show, chunk@, offset as int, is_long, body));
    }
    (len, text)
}

} // verus!
