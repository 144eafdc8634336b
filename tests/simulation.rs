use hardware_simulator::builder::{build, BuildError, Registry};
use hardware_simulator::builtin::{get_builtin, Nand};
use hardware_simulator::bus_range::BusRange;
use hardware_simulator::interface::Interface;
use hardware_simulator::model::{Chip, ConnEdge, Source};
use hardware_simulator::parser::{parse_instruction, Chip as Definition, Connection, Implementation};
use hardware_simulator::symbol::Symbol;

fn pins(list: &[(&str, u16, u16)]) -> Vec<(String, BusRange)> {
    list.iter()
        .map(|&(n, s, e)| (n.to_string(), BusRange { start: s, end: e }))
        .collect()
}

fn parts(text: &[&str]) -> Vec<Connection> {
    text.iter().map(|t| parse_instruction(t).unwrap().1).collect()
}

fn native(
    com_in: &[(&str, u16, u16)],
    com_out: &[(&str, u16, u16)],
    seq_in: &[(&str, u16, u16)],
    body: &[&str],
) -> Definition {
    Definition {
        interface: Interface {
            com_in: pins(com_in),
            com_out: pins(com_out),
            seq_in: pins(seq_in),
            seq_out: Vec::new(),
        },
        logic: Implementation::Native(parts(body)),
    }
}

/// A one-bit buffer whose input is a registered pin.
fn latch() -> Definition {
    native(
        &[],
        &[("q", 0, 0)],
        &[("d", 0, 0)],
        &["Nand(a=d, b=d, out=nd);", "Nand(a=nd, b=nd, out=q);"],
    )
}

/// A register whose next value is the negation of its current one; `out` shows the
/// negation of the latched value.
fn toggle() -> Definition {
    native(
        &[],
        &[("out", 0, 0)],
        &[],
        &[
            "Latch(d=nx, q=x);",
            "Nand(a=x, b=x, out=nx);",
            "Nand(a=x, b=x, out=out);",
        ],
    )
}

fn registry() -> Registry {
    let mut reg = Registry::new();
    reg.register("Latch".to_string(), latch());
    reg
}

#[test]
fn nand_truth_table() {
    let mut g = get_builtin("Nand").unwrap();
    assert_eq!(g.eval(&[true, true]), vec![false]);
    assert_eq!(g.eval(&[true, false]), vec![true]);
    assert_eq!(g.eval(&[false, true]), vec![true]);
    assert_eq!(g.eval(&[false, false]), vec![true]);
    let mut n = Nand;
    assert_eq!(n.eval(&[true, true]), vec![false]);
}

#[test]
fn builtin_catalog_has_only_nand() {
    assert!(get_builtin("Nand").is_some());
    assert!(get_builtin("And").is_none());
    assert!(get_builtin("nand").is_none());
}

#[test]
fn nand_interface() {
    let i = Nand.interface();
    assert_eq!(i.com_in, pins(&[("a", 0, 0), ("b", 1, 1)]));
    assert_eq!(i.com_out, pins(&[("out", 0, 0)]));
    assert!(i.seq_in.is_empty() && i.seq_out.is_empty());
}

#[test]
fn builtin_definition_builds() {
    let def = Definition {
        interface: Nand.interface(),
        logic: Implementation::Builtin(Symbol::Name("Nand".to_string())),
    };
    let mut c = build(&def, &Registry::new()).unwrap();
    assert_eq!(c.eval(&[true, true]), vec![false]);
    let def = Definition {
        interface: Nand.interface(),
        logic: Implementation::Builtin(Symbol::Name("Xor".to_string())),
    };
    assert!(matches!(build(&def, &Registry::new()), Err(BuildError::UnknownChip(n)) if n == "Xor"));
}

#[test]
fn and_gate_from_nands() {
    let def = native(
        &[("a", 0, 0), ("b", 1, 1)],
        &[("out", 0, 0)],
        &[],
        &["Nand(a=a, b=b, out=n);", "Nand(a=n, b=n, out=out);"],
    );
    let mut c = build(&def, &Registry::new()).unwrap();
    assert_eq!(c.eval(&[true, true]), vec![true]);
    assert_eq!(c.eval(&[true, false]), vec![false]);
    assert_eq!(c.eval(&[false, true]), vec![false]);
    assert_eq!(c.eval(&[false, false]), vec![false]);
}

#[test]
fn literal_inputs_are_constants() {
    let def = native(
        &[("a", 0, 0)],
        &[("out", 0, 0)],
        &[],
        &["Nand(a=a, b=true, out=out);"],
    );
    let mut c = build(&def, &Registry::new()).unwrap();
    assert_eq!(c.eval(&[true]), vec![false]);
    assert_eq!(c.eval(&[false]), vec![true]);
}

#[test]
fn bus_slices_route_bits() {
    let def = native(
        &[("x", 0, 1)],
        &[("y", 0, 1)],
        &[],
        &[
            "Nand(a=x[0..0], b=x[0..0], out=y[1..1]);",
            "Nand(a=x[1..1], b=x[1..1], out=y[0..0]);",
        ],
    );
    let mut c = build(&def, &Registry::new()).unwrap();
    assert_eq!(c.eval(&[true, false]), vec![true, false]);
    assert_eq!(c.eval(&[false, false]), vec![true, true]);
}

#[test]
fn width_mismatch_is_rejected() {
    let def = native(
        &[("b", 0, 5)],
        &[("out", 0, 0)],
        &[],
        &["Nand(a[0..1]=b[0..5], b=true, out=out);"],
    );
    assert!(matches!(build(&def, &Registry::new()), Err(BuildError::BusWidthMismatch)));
    let def = native(
        &[("b", 0, 5)],
        &[("out", 0, 0)],
        &[],
        &["Nand(a=b, b=true, out=out);"],
    );
    assert!(matches!(build(&def, &Registry::new()), Err(BuildError::BusWidthMismatch)));
}

#[test]
fn combinatorial_loop_is_rejected() {
    let def = native(
        &[("a", 0, 0)],
        &[("out", 0, 0)],
        &[],
        &["Nand(a=a, b=y, out=y);", "Nand(a=y, b=y, out=out);"],
    );
    assert!(matches!(build(&def, &Registry::new()), Err(BuildError::CyclicCombinatorialPath)));
    let def = native(
        &[("a", 0, 0)],
        &[("out", 0, 0)],
        &[],
        &[
            "Nand(a=a, b=z, out=x);",
            "Nand(a=x, b=x, out=y);",
            "Nand(a=y, b=y, out=z);",
            "Nand(a=z, b=z, out=out);",
        ],
    );
    assert!(matches!(build(&def, &Registry::new()), Err(BuildError::CyclicCombinatorialPath)));
}

#[test]
fn unknown_part_and_pin() {
    let def = native(&[("a", 0, 0)], &[("out", 0, 0)], &[], &["Xor(a=a, b=a, out=out);"]);
    assert!(matches!(build(&def, &Registry::new()), Err(BuildError::UnknownChip(n)) if n == "Xor"));
    let def = native(&[("a", 0, 0)], &[("out", 0, 0)], &[], &["Nand(c=a, b=a, out=out);"]);
    assert!(matches!(build(&def, &Registry::new()), Err(BuildError::UnknownPin(n)) if n == "c"));
    let def = native(&[("a", 0, 0)], &[("out", 0, 0)], &[], &["Nand(a=w, b=a, out=out);"]);
    assert!(matches!(build(&def, &Registry::new()), Err(BuildError::UnknownPin(n)) if n == "w"));
    let def = native(&[("a", 0, 0)], &[("out", 0, 0)], &[], &["Nand(a=2, b=a, out=out);"]);
    assert!(matches!(build(&def, &Registry::new()), Err(BuildError::NumericPin(2))));
}

#[test]
fn self_containing_chip_is_rejected() {
    let mut reg = Registry::new();
    let looped = native(&[("a", 0, 0)], &[("out", 0, 0)], &[], &["Loop(a=a, out=out);"]);
    reg.register("Loop".to_string(), looped.clone());
    assert!(matches!(build(&looped, &reg), Err(BuildError::CyclicChipDefinition(n)) if n == "Loop"));
}

#[test]
fn register_holds_until_clock() {
    let mut c = build(&toggle(), &registry()).unwrap();
    let first = c.eval(&[]);
    assert_eq!(first, vec![true]);
    assert_eq!(c.eval(&[]), first);
    assert_eq!(c.eval(&[]), first);
    c.clock();
    assert_eq!(c.eval(&[]), vec![false]);
    assert_eq!(c.eval(&[]), vec![false]);
    c.clock();
    assert_eq!(c.eval(&[]), vec![true]);
}

#[test]
fn register_wire_is_sequential() {
    let c = build(&toggle(), &registry()).unwrap();
    match c {
        Chip::Native(n) => {
            let seq: Vec<_> = n
                .wires
                .iter()
                .filter(|w| matches!(w.edge, ConnEdge::Sequential { .. }))
                .collect();
            assert_eq!(seq.len(), 1);
            assert_eq!(seq[0].from, Source::Node(1));
        }
        _ => panic!("expected a composite chip"),
    }
}

#[test]
fn clones_evolve_independently() {
    let mut a = build(&toggle(), &registry()).unwrap();
    assert_eq!(a.eval(&[]), vec![true]);
    let mut b = a.chip_clone();
    a.clock();
    assert_eq!(a.eval(&[]), vec![false]);
    assert_eq!(b.eval(&[]), vec![true]);
    b.clock();
    b.eval(&[]);
    b.clock();
    assert_eq!(b.eval(&[]), vec![true]);
    assert_eq!(a.eval(&[]), vec![false]);
}

use hardware_simulator::parser::parse_chip;

#[test]
fn register_from_hdl_text() {
    let mut reg = Registry::new();
    reg.register(
        "Latch".to_string(),
        parse_chip("CHIP Latch { IN d; OUT q; CLOCKED d; PARTS: Nand(a=d, b=d, out=nd); Nand(a=nd, b=nd, out=q); }")
            .unwrap(),
    );
    let top = parse_chip(
        "CHIP Toggle { IN en; OUT out; PARTS:\n Latch(d=nx, q=x);\n Nand(a=x, b=en, out=nx);\n Nand(a=x, b=x, out=out);\n}",
    )
    .unwrap();
    let mut c = build(&top, &reg).unwrap();
    assert_eq!(c.eval(&[true]), vec![true]);
    c.clock();
    assert_eq!(c.eval(&[true]), vec![false]);
    c.clock();
    assert_eq!(c.eval(&[false]), vec![true]);
    c.clock();
    assert_eq!(c.eval(&[false]), vec![false]);
    c.clock();
    assert_eq!(c.eval(&[false]), vec![false]);
}

#[test]
fn parts_run_in_dependency_order() {
    let def = native(
        &[("a", 0, 0)],
        &[("out", 0, 0)],
        &[],
        &["Nand(a=y, b=y, out=out);", "Nand(a=a, b=a, out=y);"],
    );
    let mut c = build(&def, &Registry::new()).unwrap();
    assert_eq!(c.eval(&[false]), vec![false]);
    assert_eq!(c.eval(&[true]), vec![true]);
}
