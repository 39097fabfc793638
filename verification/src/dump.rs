//! The text of a dump: one pass for each base asked for.

use crate::chunk::{chunk_count, chunks, lemma_chunk_sizes, split};
use crate::mode::Type;
use crate::render::{dump_line, lemma_line_has_no_newline, line, push_repeat, repeat};
use vstd::prelude::*;
use vstd::string::{StrSliceExecFns, StringSliceAdditionalSpecFns};

verus! {

/// The bytes of a text of ASCII characters.
pub open spec fn ascii(text: Seq<char>) -> Seq<u8> {
    Seq::new(text.len(), |i: int| text[i] as u8)
}

/// The lines as one text: each line followed by a newline.
pub open spec fn unlines(lines: Seq<Seq<u8>>) -> Seq<u8> {
    lines.map_values(|l: Seq<u8>| l.push(0x0a)).flatten()
}

/// The lines of a pass of base `t` over the input `s`: the name of the base, a
/// rule of dashes as long as the name, the line of each chunk, and an empty
/// line.
pub open spec fn pass_lines(s: Seq<u8>, t: Type) -> Seq<Seq<u8>> {
    seq![ascii(t.name()), repeat(0x2d, t.name().len())] + chunks(
        s,
        t.chunk_size() as nat,
    ).map_values(|c: Seq<u8>| line(c, t)) + seq![Seq::<u8>::empty()]
}

/// The text of a pass of base `t` over the input `s`.
pub open spec fn pass_text(s: Seq<u8>, t: Type) -> Seq<u8> {
    unlines(pass_lines(s, t))
}

/// The text of all four passes over the input `s`: hexadecimal, decimal, octal,
/// binary.
pub open spec fn full_text(s: Seq<u8>) -> Seq<u8> {
    pass_text(s, Type::HEX) + pass_text(s, Type::DEC) + pass_text(s, Type::OCT) + pass_text(
        s,
        Type::BIN,
    )
}

/// A text grows by a line and its newline.
proof fn lemma_unlines_push(lines: Seq<Seq<u8>>, l: Seq<u8>)
    ensures
        unlines(lines.push(l)) == unlines(lines) + l.push(0x0a),
{
    let f = |l: Seq<u8>| l.push(0x0a);
    assert(lines.push(l).map_values(f) =~= lines.map_values(f).push(f(l)));
    lines.map_values(f).lemma_flatten_push(f(l));
}

/// How many newlines a text holds.
pub open spec fn newlines(text: Seq<u8>) -> nat {
    text.to_multiset().count(0x0a)
}

/// Lines that hold no newline make a text of as many newlines as lines.
proof fn lemma_unlines_newlines(lines: Seq<Seq<u8>>)
    requires
        forall|i: int| 0 <= i < lines.len() ==> !(#[trigger] lines[i]).contains(0x0a),
    ensures
        newlines(unlines(lines)) == lines.len(),
    decreases lines.len(),
{
    if lines.len() == 0 {
        assert(unlines(lines) =~= Seq::<u8>::empty());
        Seq::<u8>::empty().to_multiset_ensures();
        assert(!Seq::<u8>::empty().contains(0x0a));
    } else {
        let front = lines.drop_last();
        let l = lines.last();
        assert(lines =~= front.push(l));
        lemma_unlines_push(front, l);
        lemma_unlines_newlines(front);
        vstd::seq_lib::lemma_multiset_commutative(unlines(front), l.push(0x0a));
        l.to_multiset_ensures();
    }
}

/// The text of a pass has one line for the name, one for the rule, one for each
/// chunk and an empty one, and no line is broken in two.
pub proof fn lemma_pass_line_count(s: Seq<u8>, t: Type)
    ensures
        pass_lines(s, t).len() == chunk_count(s.len(), t.chunk_size() as nat) + 3,
        newlines(pass_text(s, t)) == pass_lines(s, t).len(),
{
    let all = pass_lines(s, t);
    let size = t.chunk_size() as nat;
    assert forall|i: int| 0 <= i < all.len() implies !(#[trigger] all[i]).contains(0x0a) by {
        if 2 <= i < all.len() - 1 {
            let chunk = chunks(s, size)[i - 2];
            lemma_chunk_sizes(s, size, i - 2);
            assert(all[i] == line(chunk, t));
            lemma_line_has_no_newline(chunk, t);
        }
    }
    lemma_unlines_newlines(all);
}

/// Appends `l` and a newline to `text`.
fn push_line(text: &mut Vec<u8>, l: Vec<u8>)
    ensures
        final(text)@ == old(text)@ + l@.push(0x0a),
{
    let mut l = l;
    l.push(0x0a);
    text.append(&mut l);
}

/// The text of one pass: the name of the base `t`, a rule under it, one line for
/// each chunk of `s`, and an empty line.
pub fn dump(s: &[u8], t: Type) -> (text: Vec<u8>)
    ensures
        text@ == pass_text(s@, t),
{
    let ghost all = pass_lines(s@, t);
    let ghost body = chunks(s@, t.chunk_size() as nat);
    let mut text: Vec<u8> = Vec::new();
    let name = t.value();
    proof {
        broadcast use vstd::string::is_ascii_spec_bytes;

        assert(name.spec_bytes() =~= ascii(t.name()));
        assert(unlines(all.take(0)) =~= Seq::<u8>::empty());
        lemma_unlines_push(all.take(0), all[0]);
        assert(all.take(1) =~= all.take(0).push(all[0]));
        lemma_unlines_push(all.take(1), all[1]);
        assert(all.take(2) =~= all.take(1).push(all[1]));
    }
    push_line(&mut text, name.as_bytes_vec());
    let mut rule: Vec<u8> = Vec::new();
    push_repeat(&mut rule, 0x2d, name.len());
    push_line(&mut text, rule);
    let parts = split(s, t.chunk_size());
    let mut i: usize = 0;
    while i < parts.len()
        invariant
            i <= parts.len(),
            parts.deep_view() == body,
            body == chunks(s@, t.chunk_size() as nat),
            all == pass_lines(s@, t),
            text@ == unlines(all.take(2 + i)),
        decreases parts.len() - i,
    {
        proof {
            assert(parts@[i as int]@ =~= body[i as int]);
            lemma_chunk_sizes(s@, t.chunk_size() as nat, i as int);
            lemma_unlines_push(all.take(2 + i), all[2 + i]);
            assert(all.take(2 + i + 1) =~= all.take(2 + i).push(all[2 + i]));
        }
        let l = dump_line(parts[i].as_slice(), &t);
        push_line(&mut text, l);
        i = i + 1;
    }
    proof {
        let k = 2 + parts.len();
        lemma_unlines_push(all.take(k as int), all[k as int]);
        assert(all.take(k + 1) =~= all.take(k as int).push(all[k as int]));
        assert(all.take(k + 1) =~= all);
        assert(Seq::<u8>::empty().push(0x0a) =~= seq![0x0au8]);
    }
    text.push(0x0a);
    text
}

/// The text of all four passes, in the order hexadecimal, decimal, octal,
/// binary.
pub fn dump_all(s: &[u8]) -> (text: Vec<u8>)
    ensures
        text@ == full_text(s@),
{
    let mut text = dump(s, Type::HEX);
    let mut dec = dump(s, Type::DEC);
    text.append(&mut dec);
    let mut oct = dump(s, Type::OCT);
    text.append(&mut oct);
    let mut bin = dump(s, Type::BIN);
    text.append(&mut bin);
    text
}

/// What a dump shows: all four bases, or one of them.
#[derive(Clone, Copy, Debug, PartialEq, Eq, Structural)]
pub enum Selection {
    All,
    One(Type),
}

/// Why no dump was made.
#[derive(Clone, Copy, Debug, PartialEq, Eq, Structural)]
pub enum DumpError {
    /// The display type is none of `a`, `h`, `d`, `o`, `b`.
    UnknownDisplayType,
}

/// What a display type selects: `a` all bases, `h` hexadecimal, `d` decimal,
/// `o` octal, `b` binary, and anything else nothing.
pub open spec fn selection_of(display_type: Seq<char>) -> Option<Selection> {
    if display_type.len() != 1 {
        None
    } else if display_type[0] == 'a' {
        Some(Selection::All)
    } else if display_type[0] == 'h' {
        Some(Selection::One(Type::HEX))
    } else if display_type[0] == 'd' {
        Some(Selection::One(Type::DEC))
    } else if display_type[0] == 'o' {
        Some(Selection::One(Type::OCT))
    } else if display_type[0] == 'b' {
        Some(Selection::One(Type::BIN))
    } else {
        None
    }
}

/// The text that a selection shows of the input `s`.
pub open spec fn selected_text(s: Seq<u8>, selection: Selection) -> Seq<u8> {
    match selection {
        Selection::All => full_text(s),
        Selection::One(t) => pass_text(s, t),
    }
}

/// What is said of a display type that selects nothing.
pub open spec fn usage() -> Seq<char> {
    "display_type should be one of a|h|d|o|b"@
}

impl Selection {
    /// Reads a display type.
    pub fn from_display_type(display_type: &str) -> (selection: Option<Selection>)
        ensures
            selection == selection_of(display_type@),
    {
        if display_type.unicode_len() != 1 {
            return None;
        }
        let c = display_type.get_char(0);
        if c == 'a' {
            Some(Selection::All)
        } else if c == 'h' {
            Some(Selection::One(Type::HEX))
        } else if c == 'd' {
            Some(Selection::One(Type::DEC))
        } else if c == 'o' {
            Some(Selection::One(Type::OCT))
        } else if c == 'b' {
            Some(Selection::One(Type::BIN))
        } else {
            None
        }
    }
}

impl DumpError {
    /// The error in words.
    pub fn message(&self) -> (text: String)
        ensures
            text@ == usage(),
    {
        "display_type should be one of a|h|d|o|b".to_owned()
    }
}

/// The text of the passes that `selection` names.
pub fn dump_selection(s: &[u8], selection: Selection) -> (text: Vec<u8>)
    ensures
        text@ == selected_text(s@, selection),
{
    match selection {
        Selection::All => dump_all(s),
        Selection::One(t) => dump(s, t),
    }
}

/// The text of the dump that the display type asks for, or the error that it
/// asks for none.
pub fn dump_as(s: &[u8], display_type: &str) -> (result: Result<Vec<u8>, DumpError>)
    ensures
        match selection_of(display_type@) {
            Some(selection) => result is Ok && result->Ok_0@ == selected_text(s@, selection),
            None => result == Err::<Vec<u8>, DumpError>(DumpError::UnknownDisplayType),
        },
{
    match Selection::from_display_type(display_type) {
        Some(selection) => Ok(dump_selection(s, selection)),
        None => Err(DumpError::UnknownDisplayType),
    }
}

} // verus!
