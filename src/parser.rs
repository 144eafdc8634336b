use vstd::prelude::*;

use crate::bus_range::BusRange;
use crate::interface::Interface;
use crate::lex::{
    all_digits, alnum_end, chars_of, decimal, parse_decimal, skip_alnum, skip_space, space_end,
};
use crate::symbol::{is_ascii_ws, number_text, true_text, false_text, HdlParseError, Symbol};

verus! {

broadcast use vstd::string::group_string_axioms;

/// One wiring directive of an instruction: `internal[bus] = external[bus]`.
#[derive(Debug, Clone, PartialEq, Eq)]
pub struct Argument {
    pub internal: Symbol,
    pub internal_bus: Option<BusRange>,
    pub external: Symbol,
    pub external_bus: Option<BusRange>,
}

/// One entry of a parts list: the chip to instantiate and how its pins are wired.
#[derive(Debug, Clone, PartialEq, Eq)]
pub struct Connection {
    pub chip_name: Symbol,
    pub inputs: Vec<Argument>,
}

/// A pin declaration: its name and, for a bus, its width.
#[derive(Debug, Clone, PartialEq, Eq)]
pub struct Pin {
    pub name: Symbol,
    pub size: Option<u16>,
}

/// A reference to a primitive, with the pins of it that are clocked.
#[derive(Debug, Clone, PartialEq, Eq)]
pub struct Builtin {
    pub name: Symbol,
    pub clocked: Option<Vec<Symbol>>,
}

/// How a chip is made: a primitive of the catalog, or a list of parts.
#[derive(Debug, Clone, PartialEq, Eq)]
pub enum Implementation {
    Builtin(Symbol),
    Native(Vec<Connection>),
}

/// A chip definition: its pins and how it is made.
#[derive(Debug, Clone, PartialEq, Eq)]
pub struct Chip {
    pub interface: Interface,
    pub logic: Implementation,
}

/// Where the pieces of a parsed argument stand in the source.
pub struct ArgSpan {
    pub internal: (int, int),
    pub internal_bus: Option<BusRange>,
    pub external: (int, int),
    pub external_bus: Option<BusRange>,
}

/// `a` is the argument that the source `s` spells out at `sp`.
pub open spec fn arg_matches(a: Argument, s: Seq<char>, sp: ArgSpan) -> bool {
    &&& a.internal.denotes(s.subrange(sp.internal.0, sp.internal.1))
    &&& a.internal_bus == sp.internal_bus
    &&& a.external.denotes(s.subrange(sp.external.0, sp.external.1))
    &&& a.external_bus == sp.external_bus
}

pub open spec fn args_match(v: Seq<Argument>, s: Seq<char>, sps: Seq<ArgSpan>) -> bool {
    v.len() == sps.len() && forall|j: int| 0 <= j < v.len() ==> arg_matches(#[trigger] v[j], s, sps[j])
}

/// A symbol token at `i`: start and end of its characters, and where the text after it
/// (and after the whitespace and comments that follow) begins.
pub open spec fn spec_symbol(s: Seq<char>, i: int) -> Result<(int, int, int), HdlParseError> {
    let a = space_end(s, i);
    let b = alnum_end(s, a);
    if b == a {
        Err(HdlParseError::Unexpected(a as usize))
    } else {
        Ok((a, b, space_end(s, b)))
    }
}

/// The bit index that the text `t` spells, if it spells one.
pub open spec fn bus_index(t: Seq<char>) -> Option<u16> {
    if t.len() > 0 && all_digits(t) && decimal(t) <= u16::MAX {
        Some(decimal(t) as u16)
    } else {
        None
    }
}

/// A bus range `[start..end]` at `i`, with whitespace and comments allowed around every
/// token.
pub open spec fn spec_bus_range(s: Seq<char>, i: int) -> Result<(int, BusRange), HdlParseError> {
    let a = space_end(s, i);
    if !(0 <= a < s.len() && s[a] == '[') {
        Err(HdlParseError::Unexpected(a as usize))
    } else {
        match spec_symbol(s, a + 1) {
            Err(e) => Err(e),
            Ok((x0, x1, r1)) => if !(0 <= r1 && r1 + 1 < s.len() && s[r1] == '.' && s[r1 + 1]
                == '.') {
                Err(HdlParseError::Unexpected(r1 as usize))
            } else {
                match spec_symbol(s, r1 + 2) {
                    Err(e) => Err(e),
                    Ok((y0, y1, r2)) => if !(0 <= r2 < s.len() && s[r2] == ']') {
                        Err(HdlParseError::Unexpected(r2 as usize))
                    } else {
                        match (bus_index(s.subrange(x0, x1)), bus_index(s.subrange(y0, y1))) {
                            (Some(st), Some(en)) => if st <= en {
                                Ok((space_end(s, r2 + 1), BusRange { start: st, end: en }))
                            } else {
                                Err(HdlParseError::InvertedBusRange(a as usize))
                            },
                            (None, _) => Err(HdlParseError::BadBusIndex(x0 as usize)),
                            (_, None) => Err(HdlParseError::BadBusIndex(y0 as usize)),
                        }
                    },
                }
            },
        }
    }
}

/// A symbol followed by an optional bus range.
pub open spec fn spec_symbol_bus(s: Seq<char>, i: int) -> Result<
    (int, int, Option<BusRange>, int),
    HdlParseError,
> {
    match spec_symbol(s, i) {
        Err(e) => Err(e),
        Ok((a, b, r)) => match spec_bus_range(s, r) {
            Ok((q, br)) => Ok((a, b, Some(br), q)),
            Err(e) => if e.is_fatal() {
                Err(e)
            } else {
                Ok((a, b, None, r))
            },
        },
    }
}

/// Where the ASCII whitespace that starts at `i` ends.
pub open spec fn ascii_ws_end(s: Seq<char>, i: int) -> int
    decreases s.len() - i,
{
    if i < 0 || i >= s.len() || !is_ascii_ws(s[i]) {
        i
    } else {
        ascii_ws_end(s, i + 1)
    }
}

/// Past an optional comma and the whitespace after it.
pub open spec fn comma_end(s: Seq<char>, i: int) -> int {
    if 0 <= i < s.len() && s[i] == ',' {
        ascii_ws_end(s, i + 1)
    } else {
        i
    }
}

/// An argument `internal[bus] = external[bus]` at `i`, with its separating comma.
pub open spec fn spec_parse_arg(s: Seq<char>, i: int) -> Result<(int, ArgSpan), HdlParseError> {
    match spec_symbol_bus(s, i) {
        Err(e) => Err(e),
        Ok((a, b, ib, r)) => if !(0 <= r < s.len() && s[r] == '=') {
            Err(HdlParseError::Unexpected(r as usize))
        } else {
            match spec_symbol_bus(s, r + 1) {
                Err(e) => Err(e),
                Ok((c, d, eb, q)) => Ok(
                    (
                        space_end(s, comma_end(s, q)),
                        ArgSpan { internal: (a, b), internal_bus: ib, external: (c, d), external_bus: eb },
                    ),
                ),
            }
        },
    }
}

/// As many arguments as follow one another from `i`.
pub open spec fn spec_args_from(s: Seq<char>, i: int) -> Result<(int, Seq<ArgSpan>), HdlParseError>
    decreases s.len() - i,
{
    match spec_parse_arg(s, i) {
        Ok((j, sp)) => if i < j <= s.len() {
            match spec_args_from(s, j) {
                Ok((k, rest)) => Ok((k, seq![sp] + rest)),
                Err(e) => Err(e),
            }
        } else {
            Ok((i, Seq::empty()))
        },
        Err(e) => if e.is_fatal() {
            Err(e)
        } else {
            Ok((i, Seq::empty()))
        },
    }
}

/// A parenthesised argument list at `i`.
pub open spec fn spec_parse_args(s: Seq<char>, i: int) -> Result<(int, Seq<ArgSpan>), HdlParseError> {
    if !(0 <= i < s.len() && s[i] == '(') {
        Err(HdlParseError::Unexpected(i as usize))
    } else {
        match spec_args_from(s, i + 1) {
            Err(e) => Err(e),
            Ok((k, sps)) => if 0 <= k < s.len() && s[k] == ')' {
                Ok((k + 1, sps))
            } else {
                Err(HdlParseError::Unexpected(k as usize))
            },
        }
    }
}

/// Text that makes a name, not a literal.
pub open spec fn name_text(t: Seq<char>) -> bool {
    !number_text(t) && t != true_text() && t != false_text()
}

/// An instruction `Name(arguments);` at `i`: the span of its chip name and its arguments.
pub open spec fn spec_parse_instruction(s: Seq<char>, i: int) -> Result<
    (int, (int, int), Seq<ArgSpan>),
    HdlParseError,
> {
    match spec_symbol(s, i) {
        Err(e) => Err(e),
        Ok((a, b, r)) => match spec_parse_args(s, r) {
            Err(e) => Err(e),
            Ok((k, sps)) => {
                let k2 = space_end(s, k);
                if !(0 <= k2 < s.len() && s[k2] == ';') {
                    Err(HdlParseError::Unexpected(k2 as usize))
                } else if !name_text(s.subrange(a, b)) {
                    Err(HdlParseError::NotAName(a as usize))
                } else {
                    Ok((space_end(s, k2 + 1), (a, b), sps))
                }
            },
        },
    }
}

/// As many instructions as follow one another from `i`: the span of each chip name
/// and each instruction's arguments.
pub open spec fn spec_instructions_from(s: Seq<char>, i: int) -> Result<
    (int, Seq<((int, int), Seq<ArgSpan>)>),
    HdlParseError,
>
    decreases s.len() - i,
{
    match spec_parse_instruction(s, i) {
        Ok((j, nm, sps)) => if i < j <= s.len() {
            match spec_instructions_from(s, j) {
                Ok((k, rest)) => Ok((k, seq![(nm, sps)] + rest)),
                Err(e) => Err(e),
            }
        } else {
            Ok((i, Seq::empty()))
        },
        Err(e) => if e.is_fatal() {
            Err(e)
        } else {
            Ok((i, Seq::empty()))
        },
    }
}

/// A whole parts list: instructions after optional whitespace and comments, up to the
/// end of the text.
pub open spec fn spec_parse_parts(s: Seq<char>) -> Result<Seq<((int, int), Seq<ArgSpan>)>, HdlParseError> {
    match spec_instructions_from(s, space_end(s, 0)) {
        Ok((k, v)) => if k == s.len() {
            Ok(v)
        } else {
            Err(HdlParseError::Unexpected(k as usize))
        },
        Err(e) => Err(e),
    }
}

/// `c` is the instruction that `s` spells out at `sp`.
pub open spec fn connection_matches(c: Connection, s: Seq<char>, sp: ((int, int), Seq<ArgSpan>)) -> bool {
    c.chip_name is Name && c.chip_name.denotes(s.subrange(sp.0.0, sp.0.1)) && args_match(c.inputs@, s, sp.1)
}

/// The keyword `kw` as a token at `i`; where the text after it begins.
pub open spec fn spec_keyword(s: Seq<char>, i: int, kw: Seq<char>) -> Result<int, HdlParseError> {
    match spec_symbol(s, i) {
        Ok((a, b, r)) => if s.subrange(a, b) == kw {
            Ok(r)
        } else {
            Err(HdlParseError::Unexpected(a as usize))
        },
        Err(e) => Err(e),
    }
}

/// The character `c` at `i`, after whitespace and comments.
pub open spec fn spec_punct(s: Seq<char>, i: int, c: char) -> Result<int, HdlParseError> {
    let a = space_end(s, i);
    if 0 <= a < s.len() && s[a] == c {
        Ok(space_end(s, a + 1))
    } else {
        Err(HdlParseError::Unexpected(a as usize))
    }
}

/// A pin declaration `name` or `name[width]`: the span of its name and its width.
pub open spec fn spec_pin(s: Seq<char>, i: int) -> Result<(int, ((int, int), u16)), HdlParseError> {
    match spec_symbol(s, i) {
        Err(e) => Err(e),
        Ok((a, b, r)) => if !name_text(s.subrange(a, b)) {
            Err(HdlParseError::NotAName(a as usize))
        } else if 0 <= r < s.len() && s[r] == '[' {
            match spec_symbol(s, r + 1) {
                Err(e) => Err(e),
                Ok((x0, x1, r2)) => if !(0 <= r2 < s.len() && s[r2] == ']') {
                    Err(HdlParseError::Unexpected(r2 as usize))
                } else {
                    match bus_index(s.subrange(x0, x1)) {
                        Some(w) => if w >= 1 {
                            Ok((space_end(s, r2 + 1), ((a, b), w)))
                        } else {
                            Err(HdlParseError::BadBusIndex(x0 as usize))
                        },
                        None => Err(HdlParseError::BadBusIndex(x0 as usize)),
                    }
                },
            }
        } else {
            Ok((r, ((a, b), 1u16)))
        },
    }
}

/// A comma-separated list of pin declarations at `i`.
pub open spec fn spec_pins(s: Seq<char>, i: int) -> Result<(int, Seq<((int, int), u16)>), HdlParseError>
    decreases s.len() - i,
{
    match spec_pin(s, i) {
        Err(e) => Err(e),
        Ok((j, p)) => if i < j && 0 <= j < s.len() && s[j] == ',' {
            match spec_pins(s, j + 1) {
                Ok((k, rest)) => Ok((k, seq![p] + rest)),
                Err(e) => Err(e),
            }
        } else {
            Ok((j, seq![p]))
        },
    }
}

/// Bits taken by the first `k` pins of `pins`.
pub open spec fn offset(pins: Seq<((int, int), u16)>, k: int) -> int
    decreases k,
{
    if k <= 0 || k > pins.len() {
        0
    } else {
        offset(pins, k - 1) + pins[k - 1].1
    }
}

/// Some pin of `clocked` is spelled as the text at `nm`.
pub open spec fn is_clocked(s: Seq<char>, clocked: Seq<((int, int), u16)>, nm: (int, int)) -> bool {
    exists|j: int| 0 <= j < clocked.len() && s.subrange((#[trigger] clocked[j]).0.0, clocked[j].0.1) == s.subrange(nm.0, nm.1)
}

/// The first `k` pins of `pins` that are (`seq`) or are not clocked, each with the bits
/// it occupies when all of `pins` are laid out one after another.
pub open spec fn placed(
    s: Seq<char>,
    pins: Seq<((int, int), u16)>,
    clocked: Seq<((int, int), u16)>,
    seq: bool,
    k: int,
) -> Seq<(Seq<char>, BusRange)>
    decreases k,
{
    if k <= 0 || k > pins.len() {
        Seq::empty()
    } else {
        let before = placed(s, pins, clocked, seq, k - 1);
        let p = pins[k - 1];
        if is_clocked(s, clocked, p.0) == seq {
            before.push(
                (
                    s.subrange(p.0.0, p.0.1),
                    BusRange {
                        start: offset(pins, k - 1) as u16,
                        end: (offset(pins, k - 1) + p.1 - 1) as u16,
                    },
                ),
            )
        } else {
            before
        }
    }
}

pub open spec fn pins_view(v: Seq<(String, BusRange)>) -> Seq<(Seq<char>, BusRange)> {
    v.map_values(|p: (String, BusRange)| (p.0@, p.1))
}

/// How a parsed chip is made, by position in the source.
pub enum BodySpan {
    Parts(Seq<((int, int), Seq<ArgSpan>)>),
    Builtin(int, int),
}

/// Where the pieces of a parsed chip definition stand in the source.
pub struct ChipSpan {
    pub name: (int, int),
    pub in_at: int,
    pub inputs: Seq<((int, int), u16)>,
    pub out_at: int,
    pub outputs: Seq<((int, int), u16)>,
    pub clocked: Seq<((int, int), u16)>,
    pub body: BodySpan,
}

/// The body of a chip at `i`: `PARTS:` and instructions, or `BUILTIN Name;`.
pub open spec fn spec_body(s: Seq<char>, i: int) -> Result<(int, BodySpan), HdlParseError> {
    match spec_symbol(s, i) {
        Err(e) => Err(e),
        Ok((a, b, r)) => if s.subrange(a, b) == seq!['P', 'A', 'R', 'T', 'S'] {
            match spec_punct(s, r, ':') {
                Err(e) => Err(e),
                Ok(q) => match spec_instructions_from(s, q) {
                    Ok((k, v)) => Ok((k, BodySpan::Parts(v))),
                    Err(e) => Err(e),
                },
            }
        } else if s.subrange(a, b) == seq!['B', 'U', 'I', 'L', 'T', 'I', 'N'] {
            match spec_symbol(s, r) {
                Err(e) => Err(e),
                Ok((c, d, q)) => if !name_text(s.subrange(c, d)) {
                    Err(HdlParseError::NotAName(c as usize))
                } else {
                    match spec_punct(s, q, ';') {
                        Ok(q2) => Ok((q2, BodySpan::Builtin(c, d))),
                        Err(e) => Err(e),
                    }
                }
            }
        } else {
            Err(HdlParseError::Unexpected(a as usize))
        },
    }
}

/// The optional `CLOCKED pins;` section at `i`.
pub open spec fn spec_clocked(s: Seq<char>, i: int) -> Result<(int, Seq<((int, int), u16)>), HdlParseError> {
    match spec_keyword(s, i, seq!['C', 'L', 'O', 'C', 'K', 'E', 'D']) {
        Err(_) => Ok((i, Seq::empty())),
        Ok(r) => match spec_pins(s, r) {
            Err(e) => Err(e),
            Ok((q, v)) => match spec_punct(s, q, ';') {
                Ok(q2) => Ok((q2, v)),
                Err(e) => Err(e),
            },
        },
    }
}

/// A whole chip definition:
/// `CHIP Name { IN pins; OUT pins; [CLOCKED pins;] body }`.
pub open spec fn spec_parse_chip(s: Seq<char>) -> Result<ChipSpan, HdlParseError> {
    match spec_keyword(s, 0, seq!['C', 'H', 'I', 'P']) {
        Err(e) => Err(e),
        Ok(r0) => match spec_symbol(s, r0) {
            Err(e) => Err(e),
            Ok((na, nb, r1)) => match spec_punct(s, r1, '{') {
                Err(e) => Err(e),
                Ok(r2) => match spec_keyword(s, r2, seq!['I', 'N']) {
                    Err(e) => Err(e),
                    Ok(r3) => match spec_pins(s, r3) {
                        Err(e) => Err(e),
                        Ok((r4, ins)) => match spec_punct(s, r4, ';') {
                            Err(e) => Err(e),
                            Ok(r5) => match spec_keyword(s, r5, seq!['O', 'U', 'T']) {
                                Err(e) => Err(e),
                                Ok(r6) => match spec_pins(s, r6) {
                                    Err(e) => Err(e),
                                    Ok((r7, outs)) => match spec_punct(s, r7, ';') {
                                        Err(e) => Err(e),
                                        Ok(r8) => match spec_clocked(s, r8) {
                                            Err(e) => Err(e),
                                            Ok((r9, clk)) => match spec_body(s, r9) {
                                                Err(e) => Err(e),
                                                Ok((r10, body)) => match spec_punct(s, r10, '}') {
                                                    Err(e) => Err(e),
                                                    Ok(r11) => if r11 != s.len() {
                                                        Err(HdlParseError::Unexpected(r11 as usize))
                                                    } else if offset(ins, ins.len() as int) > 65536 {
                                                        Err(HdlParseError::TooWide(space_end(s, r2) as usize))
                                                    } else if offset(outs, outs.len() as int) > 65536 {
                                                        Err(HdlParseError::TooWide(space_end(s, r5) as usize))
                                                    } else if has_duplicate(s, ins + outs) {
                                                        Err(HdlParseError::DuplicatePin(space_end(s, r2) as usize))
                                                    } else {
                                                        Ok(ChipSpan {
                                                            name: (na, nb),
                                                            in_at: space_end(s, r2),
                                                            inputs: ins,
                                                            out_at: space_end(s, r5),
                                                            outputs: outs,
                                                            clocked: clk,
                                                            body,
                                                        })
                                                    },
                                                },
                                            },
                                        },
                                    },
                                },
                            },
                        },
                    },
                },
            },
        },
    }
}

/// Two of `pins` are spelled alike.
pub open spec fn has_duplicate(s: Seq<char>, pins: Seq<((int, int), u16)>) -> bool {
    exists|i: int, j: int|
        0 <= i < j < pins.len() && s.subrange((#[trigger] pins[i]).0.0, pins[i].0.1) == s.subrange(
            (#[trigger] pins[j]).0.0,
            pins[j].0.1,
        )
}

/// `def` is the definition that `s` spells out at `cs`.
pub open spec fn chip_matches(def: Chip, s: Seq<char>, cs: ChipSpan) -> bool {
    &&& pins_view(def.interface.com_in@) == placed(s, cs.inputs, cs.clocked, false, cs.inputs.len() as int)
    &&& pins_view(def.interface.seq_in@) == placed(s, cs.inputs, cs.clocked, true, cs.inputs.len() as int)
    &&& pins_view(def.interface.com_out@) == placed(s, cs.outputs, cs.clocked, false, cs.outputs.len() as int)
    &&& pins_view(def.interface.seq_out@) == placed(s, cs.outputs, cs.clocked, true, cs.outputs.len() as int)
    &&& body_matches(def.logic, s, cs.body)
}

/// `logic` is the body that `s` spells out at `b`.
pub open spec fn body_matches(logic: Implementation, s: Seq<char>, b: BodySpan) -> bool {
    match b {
        BodySpan::Parts(sps) => logic matches Implementation::Native(v) && v@.len() == sps.len()
            && forall|j: int| 0 <= j < v@.len() ==> connection_matches(#[trigger] v@[j], s, sps[j]),
        BodySpan::Builtin(a, b) => logic matches Implementation::Builtin(sym) && sym.denotes(s.subrange(a, b)),
    }
}

fn symbol_at(s: &Vec<char>, i: usize) -> (r: Result<(usize, usize, usize), HdlParseError>)
    requires
        i <= s@.len(),
    ensures
        match r {
            Ok((a, b, q)) => spec_symbol(s@, i as int) == Ok::<(int, int, int), HdlParseError>(
                (a as int, b as int, q as int),
            ) && i <= a < b <= q <= s@.len(),
            Err(e) => spec_symbol(s@, i as int) == Err::<(int, int, int), HdlParseError>(e),
        },
{
    let a = skip_space(s, i);
    let b = skip_alnum(s, a);
    if b == a {
        Err(HdlParseError::Unexpected(a))
    } else {
        Ok((a, b, skip_space(s, b)))
    }
}

/// The symbol that the token `s[a..b]` of `src` makes.
fn symbol_of(src: &str, s: &Vec<char>, a: usize, b: usize) -> (r: Symbol)
    requires
        s@ == src@,
        a < b <= s@.len(),
    ensures
        r.denotes(s@.subrange(a as int, b as int)),
{
    let text = src.substring_char(a, b);
    Symbol::classify(s, a, b, text)
}

fn bus_range_at(s: &Vec<char>, i: usize) -> (r: Result<(usize, BusRange), HdlParseError>)
    requires
        i <= s@.len(),
    ensures
        match r {
            Ok((q, br)) => spec_bus_range(s@, i as int) == Ok::<(int, BusRange), HdlParseError>(
                (q as int, br),
            ) && i <= q <= s@.len(),
            Err(e) => spec_bus_range(s@, i as int) == Err::<(int, BusRange), HdlParseError>(e),
        },
{
    let a = skip_space(s, i);
    if !(a < s.len() && s[a] == '[') {
        return Err(HdlParseError::Unexpected(a));
    }
    let (x0, x1, r1) = symbol_at(s, a + 1)?;
    if !(s.len() - r1 >= 2 && s[r1] == '.' && s[r1 + 1] == '.') {
        return Err(HdlParseError::Unexpected(r1));
    }
    let (y0, y1, r2) = symbol_at(s, r1 + 2)?;
    if !(r2 < s.len() && s[r2] == ']') {
        return Err(HdlParseError::Unexpected(r2));
    }
    let st = parse_decimal(s, x0, x1, 65535);
    let en = parse_decimal(s, y0, y1, 65535);
    match (st, en) {
        (Some(st), Some(en)) => {
            if st <= en {
                Ok((skip_space(s, r2 + 1), BusRange { start: st as u16, end: en as u16 }))
            } else {
                Err(HdlParseError::InvertedBusRange(a))
            }
        },
        (None, _) => Err(HdlParseError::BadBusIndex(x0)),
        (_, None) => Err(HdlParseError::BadBusIndex(y0)),
    }
}

fn is_fatal(e: &HdlParseError) -> (r: bool)
    ensures
        r == e.is_fatal(),
{
    !matches!(e, HdlParseError::Unexpected(_))
}

fn symbol_bus_at(s: &Vec<char>, i: usize) -> (r: Result<
    (usize, usize, Option<BusRange>, usize),
    HdlParseError,
>)
    requires
        i <= s@.len(),
    ensures
        match r {
            Ok((a, b, br, q)) => spec_symbol_bus(s@, i as int) == Ok::<
                (int, int, Option<BusRange>, int),
                HdlParseError,
            >((a as int, b as int, br, q as int)) && i <= a < b <= q <= s@.len(),
            Err(e) => spec_symbol_bus(s@, i as int) == Err::<
                (int, int, Option<BusRange>, int),
                HdlParseError,
            >(e),
        },
{
    let (a, b, r) = symbol_at(s, i)?;
    match bus_range_at(s, r) {
        Ok((q, br)) => Ok((a, b, Some(br), q)),
        Err(e) => {
            if is_fatal(&e) {
                Err(e)
            } else {
                Ok((a, b, None, r))
            }
        },
    }
}

fn comma_at(s: &Vec<char>, i: usize) -> (r: usize)
    requires
        i <= s@.len(),
    ensures
        r == comma_end(s@, i as int),
        i <= r <= s@.len(),
{
    if i < s.len() && s[i] == ',' {
        let mut p = i + 1;
        while p < s.len() && (s[p] == ' ' || s[p] == '\t' || s[p] == '\n' || s[p] == '\r' || s[p]
            == '\x0C')
            invariant
                i < p <= s@.len(),
                ascii_ws_end(s@, p as int) == ascii_ws_end(s@, i + 1),
            decreases s@.len() - p,
        {
            p = p + 1;
        }
        p
    } else {
        i
    }
}

fn parse_arg_at(src: &str, s: &Vec<char>, i: usize) -> (r: Result<(usize, Argument), HdlParseError>)
    requires
        s@ == src@,
        i <= s@.len(),
    ensures
        match r {
            Ok((q, arg)) => spec_parse_arg(s@, i as int) matches Ok((q2, sp)) && q2 == q && arg_matches(arg, s@, sp) && i < q <= s@.len(),
            Err(e) => spec_parse_arg(s@, i as int) == Err::<(int, ArgSpan), HdlParseError>(e),
        },
{
    let (a, b, internal_bus, r) = symbol_bus_at(s, i)?;
    if !(r < s.len() && s[r] == '=') {
        return Err(HdlParseError::Unexpected(r));
    }
    let (c, d, external_bus, q) = symbol_bus_at(s, r + 1)?;
    let rest = skip_space(s, comma_at(s, q));
    let internal = symbol_of(src, s, a, b);
    let external = symbol_of(src, s, c, d);
    Ok((rest, Argument { internal, internal_bus, external, external_bus }))
}

fn args_from(src: &str, s: &Vec<char>, i: usize) -> (r: Result<(usize, Vec<Argument>), HdlParseError>)
    requires
        s@ == src@,
        i <= s@.len(),
    ensures
        match r {
            Ok((q, v)) => spec_args_from(s@, i as int) matches Ok((q2, sps)) && q2 == q && args_match(v@, s@, sps) && i <= q <= s@.len(),
            Err(e) => spec_args_from(s@, i as int) == Err::<(int, Seq<ArgSpan>), HdlParseError>(e),
        },
{
    let mut v: Vec<Argument> = Vec::new();
    let ghost mut done: Seq<ArgSpan> = Seq::empty();
    let mut p = i;
    loop
        invariant
            i <= p <= s@.len(),
            s@ == src@,
            args_match(v@, s@, done),
            spec_args_from(s@, i as int) == (match spec_args_from(s@, p as int) {
                Ok((k, rest)) => Ok((k, done + rest)),
                Err(e) => Err(e),
            }),
        decreases s@.len() - p,
    {
        match parse_arg_at(src, s, p) {
            Ok((q, arg)) => {
                let ghost sp = spec_parse_arg(s@, p as int)->Ok_0.1;
                proof {
                    match spec_args_from(s@, q as int) {
                        Ok((k, rest)) => {
                            assert(done + (seq![sp] + rest) =~= done.push(sp) + rest);
                        },
                        Err(e) => {},
                    }
                }
                v.push(arg);
                proof {
                    done = done.push(sp);
                }
                p = q;
            },
            Err(e) => {
                if is_fatal(&e) {
                    return Err(e);
                }
                assert(done + Seq::<ArgSpan>::empty() =~= done);
                return Ok((p, v));
            },
        }
    }
}

fn parse_args_at(src: &str, s: &Vec<char>, i: usize) -> (r: Result<(usize, Vec<Argument>), HdlParseError>)
    requires
        s@ == src@,
        i <= s@.len(),
    ensures
        match r {
            Ok((q, v)) => spec_parse_args(s@, i as int) matches Ok((q2, sps)) && q2 == q && args_match(v@, s@, sps) && i <= q <= s@.len(),
            Err(e) => spec_parse_args(s@, i as int) == Err::<(int, Seq<ArgSpan>), HdlParseError>(e),
        },
{
    if !(i < s.len() && s[i] == '(') {
        return Err(HdlParseError::Unexpected(i));
    }
    let (k, v) = args_from(src, s, i + 1)?;
    if k < s.len() && s[k] == ')' {
        Ok((k + 1, v))
    } else {
        Err(HdlParseError::Unexpected(k))
    }
}

fn parse_instruction_at(src: &str, s: &Vec<char>, i: usize) -> (r: Result<(usize, Connection), HdlParseError>)
    requires
        s@ == src@,
        i <= s@.len(),
    ensures
        match r {
            Ok((q, c)) => spec_parse_instruction(s@, i as int) matches Ok((q2, nm, sps)) && q2 == q
                && c.chip_name.denotes(s@.subrange(nm.0, nm.1)) && args_match(c.inputs@, s@, sps)
                && c.chip_name is Name && i <= q <= s@.len(),
            Err(e) => spec_parse_instruction(s@, i as int) == Err::<(int, (int, int), Seq<ArgSpan>), HdlParseError>(e),
        },
{
    let (a, b, r) = symbol_at(s, i)?;
    let (k, inputs) = parse_args_at(src, s, r)?;
    let k2 = skip_space(s, k);
    if !(k2 < s.len() && s[k2] == ';') {
        return Err(HdlParseError::Unexpected(k2));
    }
    let chip_name = symbol_of(src, s, a, b);
    if !matches!(chip_name, Symbol::Name(_)) {
        return Err(HdlParseError::NotAName(a));
    }
    Ok((skip_space(s, k2 + 1), Connection { chip_name, inputs }))
}

/// Skips whitespace and `//` and `/* */` comments; returns the text after them.
pub fn generic_space1(arg: &str) -> (r: &str)
    ensures
        r@ == arg@.subrange(space_end(arg@, 0), arg@.len() as int),
{
    let s = chars_of(arg);
    let q = skip_space(&s, 0);
    arg.substring_char(q, s.len())
}

/// Skips whitespace and comments, of which there may be none.
pub fn generic_space0(arg: &str) -> (r: &str)
    ensures
        r@ == arg@.subrange(space_end(arg@, 0), arg@.len() as int),
{
    generic_space1(arg)
}

/// Skips a comma, if the text starts with one, and the whitespace after it.
pub fn skip_comma(arg: &str) -> (r: &str)
    ensures
        r@ == arg@.subrange(comma_end(arg@, 0), arg@.len() as int),
{
    let s = chars_of(arg);
    let q = comma_at(&s, 0);
    arg.substring_char(q, s.len())
}

/// Reads a symbol token; returns the text after it and the token.
pub fn symbol<'a>(arg: &'a str) -> (r: Result<(&'a str, &'a str), HdlParseError>)
    ensures
        match spec_symbol(arg@, 0) {
            Ok((a, b, q)) => r matches Ok((rest, tok)) && rest@ == arg@.subrange(q, arg@.len() as int)
                && tok@ == arg@.subrange(a, b),
            Err(e) => r == Err::<(&str, &str), HdlParseError>(e),
        },
{
    let s = chars_of(arg);
    let (a, b, q) = symbol_at(&s, 0)?;
    Ok((arg.substring_char(q, s.len()), arg.substring_char(a, b)))
}

/// Reads a bus range `[start..end]`; returns the text after it and the range.
pub fn bus_range<'a>(arg: &'a str) -> (r: Result<(&'a str, BusRange), HdlParseError>)
    ensures
        match spec_bus_range(arg@, 0) {
            Ok((q, br)) => r matches Ok((rest, br2)) && rest@ == arg@.subrange(q, arg@.len() as int)
                && br2 == br,
            Err(e) => r == Err::<(&str, BusRange), HdlParseError>(e),
        },
{
    let s = chars_of(arg);
    let (q, br) = bus_range_at(&s, 0)?;
    Ok((arg.substring_char(q, s.len()), br))
}

/// Reads a symbol token and an optional bus range after it.
pub fn symbol_bus<'a>(arg: &'a str) -> (r: Result<(&'a str, (&'a str, Option<BusRange>)), HdlParseError>)
    ensures
        match spec_symbol_bus(arg@, 0) {
            Ok((a, b, br, q)) => r matches Ok((rest, (tok, br2))) && rest@ == arg@.subrange(
                q,
                arg@.len() as int,
            ) && tok@ == arg@.subrange(a, b) && br2 == br,
            Err(e) => r == Err::<(&str, (&str, Option<BusRange>)), HdlParseError>(e),
        },
{
    let s = chars_of(arg);
    let (a, b, br, q) = symbol_bus_at(&s, 0)?;
    Ok((arg.substring_char(q, s.len()), (arg.substring_char(a, b), br)))
}

/// Reads one argument `internal[bus] = external[bus]` and the comma after it.
pub fn parse_arg<'a>(arg: &'a str) -> (r: Result<(&'a str, Argument), HdlParseError>)
    ensures
        match spec_parse_arg(arg@, 0) {
            Ok((q, sp)) => r matches Ok((rest, a)) && rest@ == arg@.subrange(q, arg@.len() as int)
                && arg_matches(a, arg@, sp),
            Err(e) => r == Err::<(&str, Argument), HdlParseError>(e),
        },
{
    let s = chars_of(arg);
    let (q, a) = parse_arg_at(arg, &s, 0)?;
    Ok((arg.substring_char(q, s.len()), a))
}

/// Reads a parenthesised argument list.
pub fn parse_args<'a>(arg: &'a str) -> (r: Result<(&'a str, Vec<Argument>), HdlParseError>)
    ensures
        match spec_parse_args(arg@, 0) {
            Ok((q, sps)) => r matches Ok((rest, v)) && rest@ == arg@.subrange(q, arg@.len() as int)
                && args_match(v@, arg@, sps),
            Err(e) => r == Err::<(&str, Vec<Argument>), HdlParseError>(e),
        },
{
    let s = chars_of(arg);
    let (q, v) = parse_args_at(arg, &s, 0)?;
    Ok((arg.substring_char(q, s.len()), v))
}

/// Reads one instruction `Name(arguments);` of a parts list.
pub fn parse_instruction<'a>(arg: &'a str) -> (r: Result<(&'a str, Connection), HdlParseError>)
    ensures
        match spec_parse_instruction(arg@, 0) {
            Ok((q, nm, sps)) => r matches Ok((rest, c)) && rest@ == arg@.subrange(q, arg@.len() as int)
                && c.chip_name.denotes(arg@.subrange(nm.0, nm.1)) && c.chip_name is Name
                && args_match(c.inputs@, arg@, sps),
            Err(e) => r == Err::<(&str, Connection), HdlParseError>(e),
        },
{
    let s = chars_of(arg);
    let (q, c) = parse_instruction_at(arg, &s, 0)?;
    Ok((arg.substring_char(q, s.len()), c))
}

fn instructions_at(src: &str, s: &Vec<char>, i0: usize) -> (r: Result<(usize, Vec<Connection>), HdlParseError>)
    requires
        s@ == src@,
        i0 <= s@.len(),
    ensures
        match r {
            Ok((q, v)) => spec_instructions_from(s@, i0 as int) matches Ok((q2, sps)) && q2 == q
                && v@.len() == sps.len() && (forall|j: int| 0 <= j < v@.len() ==> connection_matches(#[trigger] v@[j], s@, sps[j]))
                && i0 <= q <= s@.len(),
            Err(e) => spec_instructions_from(s@, i0 as int) == Err::<(int, Seq<((int, int), Seq<ArgSpan>)>), HdlParseError>(e),
        },
{
    let mut v: Vec<Connection> = Vec::new();
    let ghost mut done: Seq<((int, int), Seq<ArgSpan>)> = Seq::empty();
    let mut p = i0;
    loop
        invariant
            i0 <= p <= s@.len(),
            s@ == src@,
            v@.len() == done.len(),
            forall|j: int| 0 <= j < v@.len() ==> connection_matches(#[trigger] v@[j], s@, done[j]),
            spec_instructions_from(s@, i0 as int) == (match spec_instructions_from(s@, p as int) {
                Ok((k, rest)) => Ok((k, done + rest)),
                Err(e) => Err(e),
            }),
        ensures
            i0 <= p <= s@.len(),
            v@.len() == done.len(),
            forall|j: int| 0 <= j < v@.len() ==> connection_matches(#[trigger] v@[j], s@, done[j]),
            spec_instructions_from(s@, i0 as int) == Ok::<
                (int, Seq<((int, int), Seq<ArgSpan>)>),
                HdlParseError,
            >((p as int, done)),
        decreases s@.len() - p,
    {
        match parse_instruction_at(src, s, p) {
            Ok((q, c)) => {
                let ghost sp = spec_parse_instruction(s@, p as int)->Ok_0;
                if q <= p {
                    assert(done + Seq::<((int, int), Seq<ArgSpan>)>::empty() =~= done);
                    break;
                }
                proof {
                    match spec_instructions_from(s@, q as int) {
                        Ok((k, rest)) => {
                            assert(done + (seq![(sp.1, sp.2)] + rest) =~= done.push((sp.1, sp.2)) + rest);
                        },
                        Err(e) => {},
                    }
                }
                v.push(c);
                proof {
                    done = done.push((sp.1, sp.2));
                }
                p = q;
            },
            Err(e) => {
                if is_fatal(&e) {
                    return Err(e);
                }
                assert(done + Seq::<((int, int), Seq<ArgSpan>)>::empty() =~= done);
                break;
            },
        }
    }
    Ok((p, v))
}

/// Reads a whole parts list: `;`-terminated instructions, with whitespace and comments
/// between them, up to the end of the text.
pub fn parse_parts(arg: &str) -> (r: Result<Vec<Connection>, HdlParseError>)
    ensures
        match spec_parse_parts(arg@) {
            Ok(sps) => r matches Ok(v) && v@.len() == sps.len() && forall|j: int|
                0 <= j < v@.len() ==> connection_matches(#[trigger] v@[j], arg@, sps[j]),
            Err(e) => r == Err::<Vec<Connection>, HdlParseError>(e),
        },
{
    let s = chars_of(arg);
    let i0 = skip_space(&s, 0);
    let (p, v) = instructions_at(arg, &s, i0)?;
    if p == s.len() {
        Ok(v)
    } else {
        Err(HdlParseError::Unexpected(p))
    }
}

pub open spec fn spans_view(v: Seq<((usize, usize), u16)>) -> Seq<((int, int), u16)> {
    v.map_values(|p: ((usize, usize), u16)| ((p.0.0 as int, p.0.1 as int), p.1))
}

pub open spec fn spans_in(v: Seq<((usize, usize), u16)>, n: int) -> bool {
    forall|j: int| 0 <= j < v.len() ==> (#[trigger] v[j]).0.0 < v[j].0.1 <= n && v[j].1 >= 1
}

/// Whether `s[a..b]` is `kw`.
fn span_is(s: &Vec<char>, a: usize, b: usize, kw: &Vec<char>) -> (r: bool)
    requires
        a <= b <= s@.len(),
    ensures
        r == (s@.subrange(a as int, b as int) == kw@),
{
    if b - a != kw.len() {
        return false;
    }
    let mut i: usize = 0;
    while i < kw.len()
        invariant
            b - a == kw@.len(),
            a <= b <= s@.len(),
            i <= kw@.len(),
            forall|j: int| 0 <= j < i ==> s@[a + j] == #[trigger] kw@[j],
        decreases kw@.len() - i,
    {
        if s[a + i] != kw[i] {
            assert(s@.subrange(a as int, b as int)[i as int] != kw@[i as int]);
            return false;
        }
        i += 1;
    }
    assert(s@.subrange(a as int, b as int) =~= kw@);
    true
}

/// Whether `s[a..b]` and `s[c..d]` hold the same characters.
fn span_eq(s: &Vec<char>, a: usize, b: usize, c: usize, d: usize) -> (r: bool)
    requires
        a <= b <= s@.len(),
        c <= d <= s@.len(),
    ensures
        r == (s@.subrange(a as int, b as int) == s@.subrange(c as int, d as int)),
{
    if b - a != d - c {
        assert(s@.subrange(a as int, b as int).len() != s@.subrange(c as int, d as int).len());
        return false;
    }
    let mut i: usize = 0;
    while i < b - a
        invariant
            b - a == d - c,
            a <= b <= s@.len(),
            c <= d <= s@.len(),
            i <= b - a,
            forall|j: int| 0 <= j < i ==> #[trigger] s@[a + j] == s@[c + j],
        decreases b - a - i,
    {
        if s[a + i] != s[c + i] {
            assert(s@.subrange(a as int, b as int)[i as int] != s@.subrange(c as int, d as int)[i as int]);
            return false;
        }
        i += 1;
    }
    assert forall|j: int| 0 <= j < b - a implies s@.subrange(a as int, b as int)[j] == s@.subrange(c as int, d as int)[j] by {
        assert(s@[a + j] == s@[c + j]);
    }
    assert(s@.subrange(a as int, b as int) =~= s@.subrange(c as int, d as int));
    true
}

fn keyword_at(s: &Vec<char>, i: usize, kw: &Vec<char>) -> (r: Result<usize, HdlParseError>)
    requires
        i <= s@.len(),
    ensures
        match r {
            Ok(q) => spec_keyword(s@, i as int, kw@) == Ok::<int, HdlParseError>(q as int) && i <= q <= s@.len(),
            Err(e) => spec_keyword(s@, i as int, kw@) == Err::<int, HdlParseError>(e),
        },
{
    let (a, b, r) = symbol_at(s, i)?;
    if span_is(s, a, b, kw) {
        Ok(r)
    } else {
        Err(HdlParseError::Unexpected(a))
    }
}

fn punct_at(s: &Vec<char>, i: usize, c: char) -> (r: Result<usize, HdlParseError>)
    requires
        i <= s@.len(),
    ensures
        match r {
            Ok(q) => spec_punct(s@, i as int, c) == Ok::<int, HdlParseError>(q as int) && i < q <= s@.len(),
            Err(e) => spec_punct(s@, i as int, c) == Err::<int, HdlParseError>(e),
        },
{
    let a = skip_space(s, i);
    if a < s.len() && s[a] == c {
        Ok(skip_space(s, a + 1))
    } else {
        Err(HdlParseError::Unexpected(a))
    }
}

fn is_name_text(s: &Vec<char>, a: usize, b: usize, src: &str) -> (r: bool)
    requires
        s@ == src@,
        a < b <= s@.len(),
    ensures
        r == name_text(s@.subrange(a as int, b as int)),
{
    let sym = symbol_of(src, s, a, b);
    matches!(sym, Symbol::Name(_))
}

fn pin_at(src: &str, s: &Vec<char>, i: usize) -> (r: Result<(usize, ((usize, usize), u16)), HdlParseError>)
    requires
        s@ == src@,
        i <= s@.len(),
    ensures
        match r {
            Ok((q, p)) => spec_pin(s@, i as int) == Ok::<(int, ((int, int), u16)), HdlParseError>(
                (q as int, ((p.0.0 as int, p.0.1 as int), p.1)),
            ) && i < q <= s@.len() && i <= p.0.0 < p.0.1 <= s@.len() && p.1 >= 1,
            Err(e) => spec_pin(s@, i as int) == Err::<(int, ((int, int), u16)), HdlParseError>(e),
        },
{
    let (a, b, r) = symbol_at(s, i)?;
    if !is_name_text(s, a, b, src) {
        return Err(HdlParseError::NotAName(a));
    }
    if r < s.len() && s[r] == '[' {
        let (x0, x1, r2) = symbol_at(s, r + 1)?;
        if !(r2 < s.len() && s[r2] == ']') {
            return Err(HdlParseError::Unexpected(r2));
        }
        match parse_decimal(s, x0, x1, 65535) {
            Some(w) => {
                if w >= 1 {
                    Ok((skip_space(s, r2 + 1), ((a, b), w as u16)))
                } else {
                    Err(HdlParseError::BadBusIndex(x0))
                }
            },
            None => Err(HdlParseError::BadBusIndex(x0)),
        }
    } else {
        Ok((r, ((a, b), 1u16)))
    }
}

fn pins_at(src: &str, s: &Vec<char>, i: usize) -> (r: Result<(usize, Vec<((usize, usize), u16)>), HdlParseError>)
    requires
        s@ == src@,
        i <= s@.len(),
    ensures
        match r {
            Ok((q, v)) => spec_pins(s@, i as int) == Ok::<(int, Seq<((int, int), u16)>), HdlParseError>(
                (q as int, spans_view(v@)),
            ) && i < q <= s@.len() && spans_in(v@, s@.len() as int),
            Err(e) => spec_pins(s@, i as int) == Err::<(int, Seq<((int, int), u16)>), HdlParseError>(e),
        },
{
    let mut v: Vec<((usize, usize), u16)> = Vec::new();
    let mut p = i;
    loop
        invariant
            i <= p <= s@.len(),
            s@ == src@,
            spans_in(v@, s@.len() as int),
            v@.len() == 0 ==> p == i,
            spec_pins(s@, i as int) == (match spec_pins(s@, p as int) {
                Ok((k, rest)) => Ok((k, spans_view(v@) + rest)),
                Err(e) => Err(e),
            }),
        decreases s@.len() - p,
    {
        let (j, pin) = pin_at(src, s, p)?;
        let ghost sp = ((pin.0.0 as int, pin.0.1 as int), pin.1);
        let ghost v0 = v@;
        v.push(pin);
        assert(spans_view(v@) =~= spans_view(v0).push(sp));
        if j < s.len() && s[j] == ',' {
            proof {
                match spec_pins(s@, j + 1) {
                    Ok((k, rest)) => {
                        assert(spans_view(v0) + (seq![sp] + rest) =~= spans_view(v@) + rest);
                    },
                    Err(e) => {},
                }
            }
            p = j + 1;
        } else {
            assert(spans_view(v0) + seq![sp] =~= spans_view(v@));
            return Ok((j, v));
        }
    }
}

fn clocked_at(src: &str, s: &Vec<char>, i: usize) -> (r: Result<(usize, Vec<((usize, usize), u16)>), HdlParseError>)
    requires
        s@ == src@,
        i <= s@.len(),
    ensures
        match r {
            Ok((q, v)) => spec_clocked(s@, i as int) == Ok::<(int, Seq<((int, int), u16)>), HdlParseError>(
                (q as int, spans_view(v@)),
            ) && i <= q <= s@.len() && spans_in(v@, s@.len() as int),
            Err(e) => spec_clocked(s@, i as int) == Err::<(int, Seq<((int, int), u16)>), HdlParseError>(e),
        },
{
    let kw: Vec<char> = vec!['C', 'L', 'O', 'C', 'K', 'E', 'D'];
    assert(kw@ =~= seq!['C', 'L', 'O', 'C', 'K', 'E', 'D']);
    match keyword_at(s, i, &kw) {
        Err(_) => {
            let v: Vec<((usize, usize), u16)> = Vec::new();
            assert(spans_view(v@) =~= Seq::<((int, int), u16)>::empty());
            Ok((i, v))
        },
        Ok(r) => {
            let (q, v) = pins_at(src, s, r)?;
            let q2 = punct_at(s, q, ';')?;
            Ok((q2, v))
        },
    }
}

fn body_at(src: &str, s: &Vec<char>, i: usize) -> (r: Result<(usize, Implementation), HdlParseError>)
    requires
        s@ == src@,
        i <= s@.len(),
    ensures
        match r {
            Ok((q, imp)) => spec_body(s@, i as int) matches Ok((q2, b)) && q2 == q && body_matches(imp, s@, b)
                && i <= q <= s@.len(),
            Err(e) => spec_body(s@, i as int) == Err::<(int, BodySpan), HdlParseError>(e),
        },
{
    let parts: Vec<char> = vec!['P', 'A', 'R', 'T', 'S'];
    let builtin: Vec<char> = vec!['B', 'U', 'I', 'L', 'T', 'I', 'N'];
    assert(parts@ =~= seq!['P', 'A', 'R', 'T', 'S']);
    assert(builtin@ =~= seq!['B', 'U', 'I', 'L', 'T', 'I', 'N']);
    let (a, b, r) = symbol_at(s, i)?;
    if span_is(s, a, b, &parts) {
        let q = punct_at(s, r, ':')?;
        let (k, v) = instructions_at(src, s, q)?;
        Ok((k, Implementation::Native(v)))
    } else if span_is(s, a, b, &builtin) {
        let (c, d, q) = symbol_at(s, r)?;
        if !is_name_text(s, c, d, src) {
            return Err(HdlParseError::NotAName(c));
        }
        let q2 = punct_at(s, q, ';')?;
        Ok((q2, Implementation::Builtin(symbol_of(src, s, c, d))))
    } else {
        Err(HdlParseError::Unexpected(a))
    }
}

proof fn lemma_offset_mono(pins: Seq<((int, int), u16)>, k: int, m: int)
    requires
        0 <= k <= m <= pins.len(),
    ensures
        offset(pins, k) <= offset(pins, m),
    decreases m,
{
    if k < m {
        lemma_offset_mono(pins, k, m - 1);
    }
}

/// The bits that `pins` take together, or 65537 when that is more than 65536.
fn total_width(pins: &Vec<((usize, usize), u16)>) -> (r: u32)
    ensures
        (r <= 65536) == (offset(spans_view(pins@), pins@.len() as int) <= 65536),
        r <= 65536 ==> r == offset(spans_view(pins@), pins@.len() as int),
{
    let ghost ps = spans_view(pins@);
    let mut t: u32 = 0;
    let mut k: usize = 0;
    while k < pins.len()
        invariant
            k <= pins@.len(),
            ps == spans_view(pins@),
            t == offset(ps, k as int),
            t <= 65536,
        decreases pins@.len() - k,
    {
        t = t + pins[k].1 as u32;
        k += 1;
        if t > 65536 {
            proof {
                lemma_offset_mono(ps, k as int, pins@.len() as int);
            }
            return 65537;
        }
    }
    t
}

fn clocked_has(s: &Vec<char>, clocked: &Vec<((usize, usize), u16)>, a: usize, b: usize) -> (r: bool)
    requires
        a <= b <= s@.len(),
        spans_in(clocked@, s@.len() as int),
    ensures
        r == is_clocked(s@, spans_view(clocked@), (a as int, b as int)),
{
    let ghost cs = spans_view(clocked@);
    let mut j: usize = 0;
    while j < clocked.len()
        invariant
            j <= clocked@.len(),
            a <= b <= s@.len(),
            spans_in(clocked@, s@.len() as int),
            cs == spans_view(clocked@),
            forall|q: int| 0 <= q < j ==> s@.subrange((#[trigger] cs[q]).0.0, cs[q].0.1) != s@.subrange(a as int, b as int),
        decreases clocked@.len() - j,
    {
        let (c, d) = clocked[j].0;
        if span_eq(s, c, d, a, b) {
            assert(s@.subrange(cs[j as int].0.0, cs[j as int].0.1) == s@.subrange(a as int, b as int));
            return true;
        }
        j += 1;
    }
    false
}

fn find_duplicate(s: &Vec<char>, pins: &Vec<((usize, usize), u16)>) -> (r: bool)
    requires
        spans_in(pins@, s@.len() as int),
    ensures
        r == has_duplicate(s@, spans_view(pins@)),
{
    let ghost ps = spans_view(pins@);
    let mut i: usize = 0;
    while i < pins.len()
        invariant
            i <= pins@.len(),
            ps == spans_view(pins@),
            spans_in(pins@, s@.len() as int),
            forall|i2: int, j2: int|
                0 <= i2 < i && i2 < j2 < ps.len() ==> s@.subrange((#[trigger] ps[i2]).0.0, ps[i2].0.1)
                    != s@.subrange((#[trigger] ps[j2]).0.0, ps[j2].0.1),
        decreases pins@.len() - i,
    {
        let mut j: usize = i + 1;
        while j < pins.len()
            invariant
                i < pins@.len(),
                i + 1 <= j <= pins@.len(),
                ps == spans_view(pins@),
                spans_in(pins@, s@.len() as int),
                forall|i2: int, j2: int|
                    0 <= i2 < i && i2 < j2 < ps.len() ==> s@.subrange((#[trigger] ps[i2]).0.0, ps[i2].0.1)
                        != s@.subrange((#[trigger] ps[j2]).0.0, ps[j2].0.1),
                forall|j2: int|
                    i < j2 < j ==> s@.subrange(ps[i as int].0.0, ps[i as int].0.1) != s@.subrange(
                        (#[trigger] ps[j2]).0.0,
                        ps[j2].0.1,
                    ),
            decreases pins@.len() - j,
        {
            if span_eq(s, pins[i].0.0, pins[i].0.1, pins[j].0.0, pins[j].0.1) {
                assert(s@.subrange(ps[i as int].0.0, ps[i as int].0.1) == s@.subrange(ps[j as int].0.0, ps[j as int].0.1));
                return true;
            }
            j += 1;
        }
        i += 1;
    }
    false
}

/// Lays `pins` out one after another and keeps those that are (`seq`) or are not
/// clocked, with the bits each occupies.
fn layout(
    src: &str,
    s: &Vec<char>,
    pins: &Vec<((usize, usize), u16)>,
    clocked: &Vec<((usize, usize), u16)>,
    seq: bool,
) -> (r: Vec<(String, BusRange)>)
    requires
        s@ == src@,
        spans_in(pins@, s@.len() as int),
        spans_in(clocked@, s@.len() as int),
        offset(spans_view(pins@), pins@.len() as int) <= 65536,
    ensures
        pins_view(r@) == placed(s@, spans_view(pins@), spans_view(clocked@), seq, pins@.len() as int),
{
    let ghost ps = spans_view(pins@);
    let ghost cs = spans_view(clocked@);
    let mut r: Vec<(String, BusRange)> = Vec::new();
    let mut off: u32 = 0;
    let mut k: usize = 0;
    while k < pins.len()
        invariant
            s@ == src@,
            k <= pins@.len(),
            ps == spans_view(pins@),
            cs == spans_view(clocked@),
            spans_in(pins@, s@.len() as int),
            spans_in(clocked@, s@.len() as int),
            offset(ps, pins@.len() as int) <= 65536,
            off == offset(ps, k as int),
            pins_view(r@) == placed(s@, ps, cs, seq, k as int),
        decreases pins@.len() - k,
    {
        proof {
            lemma_offset_mono(ps, k + 1, pins@.len() as int);
        }
        let ((a, b), w) = pins[k];
        assert(ps[k as int] == ((a as int, b as int), w));
        if clocked_has(s, clocked, a, b) == seq {
            let name = src.substring_char(a, b).to_string();
            let br = BusRange { start: off as u16, end: (off + w as u32 - 1) as u16 };
            let ghost r0 = r@;
            r.push((name, br));
            assert(pins_view(r@) =~= pins_view(r0).push((s@.subrange(a as int, b as int), br)));
        }
        off = off + w as u32;
        k += 1;
    }
    r
}

/// Reads a whole chip definition:
/// `CHIP Name { IN pins; OUT pins; [CLOCKED pins;] PARTS: instructions }`, or with
/// `BUILTIN Name;` in place of the parts. Input pins, then output pins, are laid out one
/// after another in the order they are declared.
pub fn parse_chip(arg: &str) -> (r: Result<Chip, HdlParseError>)
    ensures
        match spec_parse_chip(arg@) {
            Ok(cs) => r matches Ok(def) && chip_matches(def, arg@, cs),
            Err(e) => r == Err::<Chip, HdlParseError>(e),
        },
{
    let s = chars_of(arg);
    let kw_chip: Vec<char> = vec!['C', 'H', 'I', 'P'];
    let kw_in: Vec<char> = vec!['I', 'N'];
    let kw_out: Vec<char> = vec!['O', 'U', 'T'];
    assert(kw_chip@ =~= seq!['C', 'H', 'I', 'P']);
    assert(kw_in@ =~= seq!['I', 'N']);
    assert(kw_out@ =~= seq!['O', 'U', 'T']);
    let r0 = keyword_at(&s, 0, &kw_chip)?;
    let (_na, _nb, r1) = symbol_at(&s, r0)?;
    let r2 = punct_at(&s, r1, '{')?;
    let r3 = keyword_at(&s, r2, &kw_in)?;
    let (r4, ins) = pins_at(arg, &s, r3)?;
    let r5 = punct_at(&s, r4, ';')?;
    let r6 = keyword_at(&s, r5, &kw_out)?;
    let (r7, outs) = pins_at(arg, &s, r6)?;
    let r8 = punct_at(&s, r7, ';')?;
    let (r9, clk) = clocked_at(arg, &s, r8)?;
    let (r10, logic) = body_at(arg, &s, r9)?;
    let r11 = punct_at(&s, r10, '}')?;
    if r11 != s.len() {
        return Err(HdlParseError::Unexpected(r11));
    }
    if total_width(&ins) > 65536 {
        return Err(HdlParseError::TooWide(skip_space(&s, r2)));
    }
    if total_width(&outs) > 65536 {
        return Err(HdlParseError::TooWide(skip_space(&s, r5)));
    }
    let mut all: Vec<((usize, usize), u16)> = Vec::new();
    let mut k: usize = 0;
    while k < ins.len()
        invariant
            k <= ins@.len(),
            all@ == ins@.subrange(0, k as int),
        decreases ins@.len() - k,
    {
        all.push(ins[k]);
        k += 1;
        assert(all@ =~= ins@.subrange(0, k as int));
    }
    let mut k: usize = 0;
    while k < outs.len()
        invariant
            k <= outs@.len(),
            all@ == ins@ + outs@.subrange(0, k as int),
        decreases outs@.len() - k,
    {
        all.push(outs[k]);
        k += 1;
        assert(all@ =~= ins@ + outs@.subrange(0, k as int));
    }
    assert(outs@.subrange(0, outs@.len() as int) =~= outs@);
    assert(spans_view(all@) =~= spans_view(ins@) + spans_view(outs@));
    assert(spans_in(all@, s@.len() as int)) by {
        assert forall|j: int| 0 <= j < all@.len() implies (#[trigger] all@[j]).0.0 < all@[j].0.1 <= s@.len() && all@[j].1 >= 1 by {
            if j < ins@.len() {
                assert(all@[j] == ins@[j]);
            } else {
                assert(all@[j] == outs@[j - ins@.len()]);
            }
        }
    }
    if find_duplicate(&s, &all) {
        return Err(HdlParseError::DuplicatePin(skip_space(&s, r2)));
    }
    let interface = Interface {
        com_in: layout(arg, &s, &ins, &clk, false),
        com_out: layout(arg, &s, &outs, &clk, false),
        seq_in: layout(arg, &s, &ins, &clk, true),
        seq_out: layout(arg, &s, &outs, &clk, true),
    };
    Ok(Chip { interface, logic })
}

} // verus!
