//! The four ways of printing a byte, and what each of them fixes.

use vstd::prelude::*;

verus! {

/// Bytes on one full line of a hexadecimal dump.
pub const SUBSTR_LEN_HEX: usize = 16;

/// Bytes on one full line of a decimal or an octal dump.
pub const SUBSTR_LEN_OCT: usize = 14;

/// Bytes on one full line of a binary dump.
pub const SUBSTR_LEN_BINARY: usize = 7;

/// The numeric base of a dump pass.
#[derive(Clone, Copy, Debug, PartialEq, Eq, Structural)]
pub enum Type {
    OCT,
    DEC,
    HEX,
    BIN,
}

impl Type {
    /// The characters of the name under which a pass of this base is printed.
    pub open spec fn name(self) -> Seq<char> {
        match self {
            Type::HEX => seq!['h', 'e', 'x'],
            Type::DEC => seq!['d', 'e', 'c'],
            Type::OCT => seq!['o', 'c', 't'],
            Type::BIN => seq!['b', 'i', 'n'],
        }
    }

    /// How many input bytes a full line shows.
    pub open spec fn spec_chunk_size(&self) -> usize {
        match *self {
            Type::HEX => SUBSTR_LEN_HEX,
            Type::BIN => SUBSTR_LEN_BINARY,
            _ => SUBSTR_LEN_OCT,
        }
    }

    /// How many characters the number of one byte takes.
    pub open spec fn spec_field_width(&self) -> usize {
        match *self {
            Type::HEX => 2,
            Type::DEC => 3,
            Type::OCT => 3,
            Type::BIN => 8,
        }
    }

    /// The base in which a byte is written.
    pub open spec fn spec_radix(&self) -> u8 {
        match *self {
            Type::HEX => 16,
            Type::DEC => 10,
            Type::OCT => 8,
            Type::BIN => 2,
        }
    }

    /// The character that fills a number up to the field width: a space in
    /// decimal, the digit zero in the other bases.
    pub open spec fn spec_fill(&self) -> u8 {
        match *self {
            Type::DEC => 0x20,
            _ => 0x30,
        }
    }

    /// The name of the base: `hex`, `dec`, `oct` or `bin`.
    pub fn value(&self) -> (name: &'static str)
        ensures
            name@ == self.name(),
            name.is_ascii(),
    {
        proof {
            reveal_strlit("hex");
            reveal_strlit("dec");
            reveal_strlit("oct");
            reveal_strlit("bin");
        }
        let name = match self {
            Type::HEX => "hex",
            Type::DEC => "dec",
            Type::OCT => "oct",
            Type::BIN => "bin",
        };
        assert(name@ =~= self.name());
        name
    }

    /// How many input bytes a full line shows: 16 in hexadecimal, 14 in decimal
    /// and octal, 7 in binary.
    #[verifier::when_used_as_spec(spec_chunk_size)]
    pub fn chunk_size(&self) -> (size: usize)
        ensures
            size == self.spec_chunk_size(),
    {
        match self {
            Type::HEX => SUBSTR_LEN_HEX,
            Type::BIN => SUBSTR_LEN_BINARY,
            _ => SUBSTR_LEN_OCT,
        }
    }

    /// How many characters the number of one byte takes: 2 in hexadecimal, 3 in
    /// decimal and octal, 8 in binary.
    #[verifier::when_used_as_spec(spec_field_width)]
    pub fn field_width(&self) -> (width: usize)
        ensures
            width == self.spec_field_width(),
    {
        match self {
            Type::HEX => 2,
            Type::DEC => 3,
            Type::OCT => 3,
            Type::BIN => 8,
        }
    }

    /// The base in which a byte is written: 16, 10, 8 or 2.
    #[verifier::when_used_as_spec(spec_radix)]
    pub fn radix(&self) -> (radix: u8)
        ensures
            radix == self.spec_radix(),
    {
        match self {
            Type::HEX => 16,
            Type::DEC => 10,
            Type::OCT => 8,
            Type::BIN => 2,
        }
    }

    /// The character that fills a number up to the field width: a space in
    /// decimal, the digit zero in the other bases.
    #[verifier::when_used_as_spec(spec_fill)]
    pub fn fill(&self) -> (fill: u8)
        ensures
            fill == self.spec_fill(),
    {
        match self {
            Type::DEC => 0x20,
            _ => 0x30,
        }
    }
}

} // verus!
