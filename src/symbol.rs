use vstd::prelude::*;

use crate::lex::{all_digits, chars_of, decimal, parse_decimal};

verus! {

broadcast use vstd::string::group_string_axioms;

/// A boolean literal.
#[derive(Debug, Clone, Copy, PartialEq, Eq, Structural)]
pub enum Value {
    True,
    False,
}

/// A lexeme of the language: a name, a boolean literal or an unsigned number.
#[derive(Debug, Clone, PartialEq, Eq)]
pub enum Symbol {
    Name(String),
    Value(Value),
    Number(usize),
}

/// Why a piece of source text could not be parsed. Positions count characters from the
/// start of the text handed to the parser.
#[derive(Debug, Clone, PartialEq, Eq)]
pub enum HdlParseError {
    /// Text that is empty, holds a non-ASCII character or holds whitespace.
    BadSymbol(String),
    /// The grammar could not continue at this position.
    Unexpected(usize),
    /// A bus index at this position is not a decimal number that fits 16 bits.
    BadBusIndex(usize),
    /// A bus range starting at this position ends before it starts.
    InvertedBusRange(usize),
    /// The chip name of an instruction, or a pin name, at this position is a literal,
    /// not a name.
    NotAName(usize),
    /// The pins of the list that starts at this position need more than 65536 bits.
    TooWide(usize),
    /// The pin lists that start at this position declare one name twice.
    DuplicatePin(usize),
}

impl HdlParseError {
    /// Failures that end the parse at once, even where the grammar has an alternative.
    pub open spec fn is_fatal(self) -> bool {
        !(self is Unexpected)
    }
}

pub open spec fn is_ascii_ws(c: char) -> bool {
    c == ' ' || c == '\t' || c == '\n' || c == '\r' || c == '\x0C'
}

/// Text from which a symbol may be made: non-empty, ASCII, free of whitespace.
pub open spec fn valid_symbol_text(t: Seq<char>) -> bool {
    t.len() > 0 && forall|j: int|
        0 <= j < t.len() ==> (#[trigger] t[j] as u32) < 128 && !is_ascii_ws(t[j])
}

pub open spec fn number_text(t: Seq<char>) -> bool {
    t.len() > 0 && all_digits(t) && decimal(t) <= usize::MAX
}

pub open spec fn true_text() -> Seq<char> {
    seq!['t', 'r', 'u', 'e']
}

pub open spec fn false_text() -> Seq<char> {
    seq!['f', 'a', 'l', 's', 'e']
}

impl Symbol {
    /// `self` is the symbol that the text `t` makes.
    pub open spec fn denotes(self, t: Seq<char>) -> bool {
        match self {
            Symbol::Number(n) => number_text(t) && n == decimal(t),
            Symbol::Value(Value::True) => !number_text(t) && t == true_text(),
            Symbol::Value(Value::False) => !number_text(t) && t == false_text(),
            Symbol::Name(x) => x@ == t && !number_text(t) && t != true_text() && t != false_text(),
        }
    }

    pub open spec fn is_name(self) -> bool {
        self is Name
    }

    /// Classifies `value`: a number when it is all decimal digits and fits a `usize`, a
    /// boolean literal when it is `true` or `false`, a name otherwise.
    pub fn try_from(value: &str) -> (r: Result<Symbol, HdlParseError>)
        ensures
            valid_symbol_text(value@) ==> (r matches Ok(sym) && sym.denotes(value@)),
            !valid_symbol_text(value@) ==> (r matches Err(HdlParseError::BadSymbol(t)) && t@
                == value@),
    {
        let cs = chars_of(value);
        let n = cs.len();
        let mut valid = n > 0;
        let mut i: usize = 0;
        while i < n
            invariant
                n == cs@.len(),
                cs@ == value@,
                i <= n,
                valid == (n > 0 && forall|j: int|
                    0 <= j < i ==> (#[trigger] cs@[j] as u32) < 128 && !is_ascii_ws(cs@[j])),
            decreases n - i,
        {
            let c = cs[i];
            if (c as u32) >= 128 || c == ' ' || c == '\t' || c == '\n' || c == '\r' || c
                == '\x0C' {
                valid = false;
            }
            i += 1;
        }
        if !valid {
            return Err(HdlParseError::BadSymbol(value.to_string()));
        }
        assert(cs@.subrange(0, n as int) =~= value@);
        Ok(Self::classify(&cs, 0, n, value))
    }

    /// The symbol that the valid text `s[a..b]`, spelled out again in `text`, makes.
    pub fn classify(s: &Vec<char>, a: usize, b: usize, text: &str) -> (r: Symbol)
        requires
            a < b <= s@.len(),
            text@ == s@.subrange(a as int, b as int),
        ensures
            r.denotes(text@),
    {
        let ghost t = text@;
        match parse_decimal(s, a, b, usize::MAX) {
            Some(k) => Symbol::Number(k),
            None => {
                if b - a == 4 && s[a] == 't' && s[a + 1] == 'r' && s[a + 2] == 'u' && s[a + 3]
                    == 'e' {
                    assert(t =~= true_text());
                    Symbol::Value(Value::True)
                } else if b - a == 5 && s[a] == 'f' && s[a + 1] == 'a' && s[a + 2] == 'l' && s[a
                    + 3] == 's' && s[a + 4] == 'e' {
                    assert(t =~= false_text());
                    Symbol::Value(Value::False)
                } else {
                    proof {
                        if t == true_text() {
                            assert(t[0] == 't' && t[1] == 'r' && t[2] == 'u' && t[3] == 'e');
                        }
                        if t == false_text() {
                            assert(t[0] == 'f' && t[1] == 'a' && t[2] == 'l' && t[3] == 's' && t[4]
                                == 'e');
                        }
                    }
                    Symbol::Name(text.to_string())
                }
            },
        }
    }
}

} // verus!
