use hardware_simulator::bus_range::BusRange;
use hardware_simulator::parser::{
    bus_range, generic_space0, parse_arg, parse_args, parse_instruction, skip_comma, symbol,
    symbol_bus, Argument, Connection,
};
use hardware_simulator::symbol::{HdlParseError, Symbol, Value};

fn name(s: &str) -> Symbol {
    Symbol::Name(s.to_string())
}

#[test]
fn test_detect_symbol() {
    assert_eq!(symbol("abcdef ghijkl"), Ok(("ghijkl", "abcdef")));
    assert_eq!(symbol("1234, ghijkl"), Ok((", ghijkl", "1234")));
    assert_eq!(symbol("abcd"), Ok(("", "abcd")));
    assert_eq!(symbol("AbCd"), Ok(("", "AbCd")));
}

#[test]
fn create_symbol() {
    assert_eq!(Symbol::try_from("breh"), Ok(name("breh")));
    assert_eq!(Symbol::try_from("12345"), Ok(Symbol::Number(12345)));
    assert_eq!(Symbol::try_from("false"), Ok(Symbol::Value(Value::False)));
    assert!(matches!(
        Symbol::try_from("u r bad"),
        Err(HdlParseError::BadSymbol(_))
    ));
}

#[test]
fn test_bus_range() {
    assert_eq!(bus_range("[0..1]"), Ok(("", BusRange { start: 0, end: 1 })));
    assert_eq!(
        bus_range("[5..10]"),
        Ok(("", BusRange { start: 5, end: 10 }))
    );
    assert_eq!(
        bus_range("[5..10] and"),
        Ok(("and", BusRange { start: 5, end: 10 }))
    );
    assert_eq!(
        bus_range("[   5   ..  10       ] and"),
        Ok(("and", BusRange { start: 5, end: 10 }))
    );
    assert_eq!(
        bus_range("[   5\n  ..  10       ] and"),
        Ok(("and", BusRange { start: 5, end: 10 }))
    );
}

#[test]
fn test_symbol_bus() {
    assert_eq!(
        symbol_bus("limo[1..10]"),
        Ok(("", ("limo", Some(BusRange { start: 1, end: 10 }))))
    );
    assert_eq!(
        symbol_bus("limo   [  1  .. 10  ]"),
        Ok(("", ("limo", Some(BusRange { start: 1, end: 10 }))))
    );
    assert_eq!(symbol_bus("limo   "), Ok(("", ("limo", None))));
    assert_eq!(symbol_bus("limo"), Ok(("", ("limo", None))))
}

fn arg(
    internal: Symbol,
    internal_bus: Option<BusRange>,
    external: Symbol,
    external_bus: Option<BusRange>,
) -> Argument {
    Argument { internal, internal_bus, external, external_bus }
}

#[test]
fn test_parse_arg() {
    let in_true = arg(name("in"), None, Symbol::Value(Value::True), None);
    assert_eq!(parse_arg("in = true"), Ok(("", in_true.clone())));
    assert_eq!(parse_arg("in\n=\ntrue"), Ok(("", in_true.clone())));
    assert_eq!(parse_arg("in=true"), Ok(("", in_true.clone())));
    assert_eq!(parse_arg("in=true, out=false"), Ok(("out=false", in_true.clone())));
    let bus_true = arg(
        name("in"),
        Some(BusRange { start: 3, end: 4 }),
        Symbol::Value(Value::True),
        None,
    );
    assert_eq!(parse_arg("in[3..4]=true)"), Ok((")", bus_true.clone())));
    assert_eq!(parse_arg("in[3..4]=true, out=false"), Ok(("out=false", bus_true)));
    assert_eq!(
        parse_arg("a[9..10]=b[5..10]"),
        Ok((
            "",
            arg(
                name("a"),
                Some(BusRange { start: 9, end: 10 }),
                name("b"),
                Some(BusRange { start: 5, end: 10 }),
            )
        ))
    )
}

#[test]
fn test_parse_args() {
    assert_eq!(
        parse_args("(in=ax, out=bruh)"),
        Ok((
            "",
            vec![
                arg(name("in"), None, name("ax"), None),
                arg(name("out"), None, name("bruh"), None),
            ]
        ))
    );
}

#[test]
fn test_parse_instruction() {
    assert_eq!(
        parse_instruction(
            "Nand (a\n[3\n..4]    =\n2, b\n[1..10]\n=  \nfalse, out=foo[6  ..  9])   ;"
        ),
        Ok((
            "",
            Connection {
                chip_name: name("Nand"),
                inputs: vec![
                    arg(name("a"), Some(BusRange { start: 3, end: 4 }), Symbol::Number(2), None),
                    arg(
                        name("b"),
                        Some(BusRange { start: 1, end: 10 }),
                        Symbol::Value(Value::False),
                        None,
                    ),
                    arg(name("out"), None, name("foo"), Some(BusRange { start: 6, end: 9 })),
                ]
            }
        ))
    )
}

#[test]
fn bus_range_ignores_whitespace_and_newlines() {
    let expected = Ok(("", BusRange { start: 0, end: 1 }));
    assert_eq!(bus_range("[0..1]"), expected);
    assert_eq!(bus_range("[ 0 .. 1 ]"), expected);
    assert_eq!(bus_range("[0\n..\n1]"), expected);
}

#[test]
fn bus_range_skips_comments() {
    assert_eq!(
        bus_range("[ /* first */ 2 .. // last\n 7 ] rest"),
        Ok(("rest", BusRange { start: 2, end: 7 }))
    );
}

#[test]
fn bus_range_errors() {
    assert_eq!(bus_range("[x..1]"), Err(HdlParseError::BadBusIndex(1)));
    assert_eq!(bus_range("[0..70000]"), Err(HdlParseError::BadBusIndex(4)));
    assert_eq!(bus_range("[5..1]"), Err(HdlParseError::InvertedBusRange(0)));
    assert_eq!(bus_range("(0..1)"), Err(HdlParseError::Unexpected(0)));
    assert_eq!(bus_range("[0.1]"), Err(HdlParseError::Unexpected(2)));
    assert_eq!(bus_range("[0..1"), Err(HdlParseError::Unexpected(5)));
}

#[test]
fn symbol_classification() {
    assert_eq!(Symbol::try_from("12345"), Ok(Symbol::Number(12345)));
    assert_eq!(Symbol::try_from("true"), Ok(Symbol::Value(Value::True)));
    assert_eq!(Symbol::try_from("false"), Ok(Symbol::Value(Value::False)));
    assert_eq!(Symbol::try_from("foo"), Ok(name("foo")));
    assert_eq!(
        Symbol::try_from("a b"),
        Err(HdlParseError::BadSymbol("a b".to_string()))
    );
    assert_eq!(
        Symbol::try_from("h\u{e9}llo"),
        Err(HdlParseError::BadSymbol("h\u{e9}llo".to_string()))
    );
    assert_eq!(Symbol::try_from(""), Err(HdlParseError::BadSymbol(String::new())));
}

#[test]
fn symbol_number_overflow_is_a_name() {
    assert_eq!(
        Symbol::try_from("99999999999999999999999"),
        Ok(name("99999999999999999999999"))
    );
    assert_eq!(Symbol::try_from("007"), Ok(Symbol::Number(7)));
}

#[test]
fn symbol_requires_a_token() {
    assert_eq!(symbol("  ,x"), Err(HdlParseError::Unexpected(2)));
    assert_eq!(symbol(""), Err(HdlParseError::Unexpected(0)));
}

#[test]
fn space_and_comments_are_skipped() {
    assert_eq!(generic_space0("/* // bruh */  abc"), "abc");
    assert_eq!(generic_space0("//abc\ndef"), "def");
    assert_eq!(generic_space0("/* word */"), "");
    assert_eq!(generic_space0("// /* word */"), "");
    assert_eq!(generic_space0("// word\na"), "a");
    assert_eq!(generic_space0("//*"), "");
    assert_eq!(generic_space0("/* open"), "/* open");
}

#[test]
fn comma_is_skipped_with_its_whitespace() {
    assert_eq!(skip_comma(",  \n next"), "next");
    assert_eq!(skip_comma("next"), "next");
}

#[test]
fn instruction_name_must_be_a_name() {
    assert_eq!(parse_instruction("true(a=b);"), Err(HdlParseError::NotAName(0)));
    assert_eq!(parse_instruction("12(a=b);"), Err(HdlParseError::NotAName(0)));
}

#[test]
fn unterminated_instruction_is_rejected() {
    assert_eq!(parse_instruction("Nand(a=b)"), Err(HdlParseError::Unexpected(9)));
    assert_eq!(parse_instruction("Nand(a=b"), Err(HdlParseError::Unexpected(8)));
}

#[test]
fn fatal_bus_error_inside_argument_list() {
    assert_eq!(parse_args("(a[1..x]=b)"), Err(HdlParseError::BadBusIndex(6)));
}

use hardware_simulator::parser::{parse_chip, parse_parts, Implementation};

fn laid(list: &[(&str, u16, u16)]) -> Vec<(String, BusRange)> {
    list.iter()
        .map(|&(n, s, e)| (n.to_string(), BusRange { start: s, end: e }))
        .collect()
}

#[test]
fn parts_list_parses() {
    let v = parse_parts("  // parts\n Nand(a=x, b=y, out=z);\n/* next */ Nand(a=z, b=z, out=w);  ").unwrap();
    assert_eq!(v.len(), 2);
    assert_eq!(v[0].chip_name, name("Nand"));
    assert_eq!(v[1].inputs[2], arg(name("out"), None, name("w"), None));
    assert_eq!(parse_parts(""), Ok(vec![]));
    assert_eq!(parse_parts("Nand(a=x); junk"), Err(HdlParseError::Unexpected(11)));
}

#[test]
fn chip_definition_parses() {
    let def = parse_chip(
        "CHIP Mux {\n  IN a[16], b, sel;\n  OUT out[2];\n  PARTS:\n  Nand(a=a[0..0], b=b, out=out[0..0]);\n}",
    )
    .unwrap();
    assert_eq!(def.interface.com_in, laid(&[("a", 0, 15), ("b", 16, 16), ("sel", 17, 17)]));
    assert_eq!(def.interface.com_out, laid(&[("out", 0, 1)]));
    assert!(def.interface.seq_in.is_empty() && def.interface.seq_out.is_empty());
    match def.logic {
        Implementation::Native(v) => {
            assert_eq!(v.len(), 1);
            assert_eq!(
                v[0].inputs[0],
                arg(name("a"), None, name("a"), Some(BusRange { start: 0, end: 0 }))
            );
        }
        _ => panic!("expected a parts list"),
    }
}

#[test]
fn clocked_and_builtin_chip_parses() {
    let def = parse_chip("CHIP Dff { IN in; OUT out; CLOCKED in; BUILTIN Dff; }").unwrap();
    assert!(def.interface.com_in.is_empty());
    assert_eq!(def.interface.seq_in, laid(&[("in", 0, 0)]));
    assert_eq!(def.interface.com_out, laid(&[("out", 0, 0)]));
    assert_eq!(def.logic, Implementation::Builtin(name("Dff")));
}

#[test]
fn chip_definition_errors() {
    assert_eq!(parse_chip("CHIP X { IN a[0]; OUT b; PARTS: }"), Err(HdlParseError::BadBusIndex(14)));
    assert_eq!(parse_chip("CHIP X { IN true; OUT b; PARTS: }"), Err(HdlParseError::NotAName(12)));
    assert_eq!(parse_chip("CHIP X { IN a; OUT b; PARTS: "), Err(HdlParseError::Unexpected(29)));
    assert_eq!(parse_chip("CHIP X { IN a; OUT b; PARTS: } x"), Err(HdlParseError::Unexpected(31)));
    assert_eq!(parse_chip("CHOP X { IN a; OUT b; PARTS: }"), Err(HdlParseError::Unexpected(0)));
    assert_eq!(
        parse_chip("CHIP X { IN a[65535], b[2]; OUT c; PARTS: }"),
        Err(HdlParseError::TooWide(9))
    );
    assert_eq!(
        parse_chip("CHIP X { IN a, b; OUT a; PARTS: }"),
        Err(HdlParseError::DuplicatePin(9))
    );
}
