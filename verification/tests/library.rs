//! The compiler's building blocks on values written by hand.
use nocturne_compiler::attrs::{find_midnight_attr, strip_midnight_attrs, MidnightAttr};
use nocturne_compiler::contract::LedgerTypeKind;
use nocturne_compiler::error::{Diagnostics, ErrorCode, MidnightError};
use nocturne_compiler::expr::{fit_u32, fit_u64, fit_u8, BinOp, ExprIR, LiteralIR, UnOp};
use nocturne_compiler::names::{NameMap, NameSet};
use nocturne_compiler::nocturne_type::{bytes_n_layout, chunk_count, compose, parse_bytes_n_type, FrLayout, NocturneType};
use nocturne_compiler::private_events::FirstTouchTracker;
use nocturne_compiler::syntax::{AttrArgs, AttrToken, Attribute, Ident, Lit, Span};
use nocturne_compiler::text::{find_char, number, parse_u32, strip_prefix, strip_spaces, strip_suffix, trim};
use nocturne_compiler::typing::{int_literal_width, is_transparent_wrapper, parse_uint_type, uint_max_value};
use nocturne_compiler::zkir::{instruction_output_count, AlignmentAtom, Imm, Instruction};
use nocturne_compiler::zkir_emitter::{aligned_value_encoding_bytes, alpha_rename, find_witness_field, gather_n_vars};
use nocturne_compiler::zkir_emitter::{parse_merkle_tree_path_type, witness_fr_layout_for_leaf_type};

fn at(id: usize) -> Span {
    Span { id }
}

fn ident(name: &str, id: usize) -> Ident {
    Ident { name: name.to_string(), span: at(id) }
}

fn var(name: &str) -> ExprIR {
    ExprIR::Var { span: at(0), name: name.to_string() }
}

fn literal(n: u128) -> ExprIR {
    ExprIR::Literal { span: at(0), value: LiteralIR::Int(n) }
}

fn attribute(path: &str, tokens: Vec<AttrToken>) -> Attribute {
    Attribute {
        path: Some(path.to_string()),
        args: AttrArgs::List { tokens, close: at(9) },
        meta_span: at(8),
        span: at(7),
    }
}

// ---- literals

/// A literal token's value, as it prints.
fn shown(lit: Lit) -> String {
    format!("{:?}", LiteralIR::from_lit(&lit))
}

#[test]
fn integer_literals_are_read_by_value() {
    for (text, value) in [("5", 5u128), ("0xff", 255), ("0b101", 5), ("0o17", 15), ("1_000", 1000), ("5u64", 5)] {
        assert_eq!(shown(Lit::Int(text.to_string())), format!("Some(Int({value}))"), "{text}");
    }
    let max = "340282366920938463463374607431768211455";
    assert_eq!(shown(Lit::Int(max.to_string())), format!("Some(Int({}))", u128::MAX));
    let beyond = "340282366920938463463374607431768211456";
    assert_eq!(shown(Lit::Int(beyond.to_string())), "None");
}

#[test]
fn other_literals_keep_their_value() {
    assert_eq!(shown(Lit::Bool(true)), "Some(Bool(true))");
    assert_eq!(shown(Lit::Str("a".to_string())), "Some(Str(\"a\"))");
    assert_eq!(shown(Lit::Other), "None");
}

#[test]
fn narrowing_keeps_what_fits() {
    assert_eq!(fit_u64(Some(u64::MAX as u128)), Some(u64::MAX));
    assert_eq!(fit_u64(Some(u64::MAX as u128 + 1)), None);
    assert_eq!(fit_u32(Some(7)), Some(7));
    assert_eq!(fit_u32(Some(1 << 32)), None);
    assert_eq!(fit_u8(Some(255)), Some(255));
    assert_eq!(fit_u8(Some(256)), None);
    assert_eq!(fit_u8(None), None);
}

#[test]
fn operators_have_their_spelling() {
    assert_eq!(BinOp::Add.text(), "+");
    assert_eq!(BinOp::Shl.text(), "<<");
    assert_eq!(UnOp::Deref.text(), "*");
    assert_eq!(UnOp::Not.text(), "!");
}

// ---- errors

#[test]
fn every_error_code_has_its_number() {
    let codes = [
        (ErrorCode::InvalidType, "MIDNIGHT-001"),
        (ErrorCode::NonZkType, "MIDNIGHT-002"),
        (ErrorCode::MissingLedger, "MIDNIGHT-100"),
        (ErrorCode::DuplicateLedger, "MIDNIGHT-101"),
        (ErrorCode::DuplicateWitnesses, "MIDNIGHT-102"),
        (ErrorCode::MissingCircuit, "MIDNIGHT-103"),
        (ErrorCode::InvalidConstructorReturn, "MIDNIGHT-104"),
        (ErrorCode::QueryMustBeImmutable, "MIDNIGHT-105"),
        (ErrorCode::EmptyContractModule, "MIDNIGHT-106"),
        (ErrorCode::InvalidAttribute, "MIDNIGHT-107"),
        (ErrorCode::WitnessTypeMismatch, "MIDNIGHT-200"),
        (ErrorCode::UnsupportedExpression, "MIDNIGHT-300"),
        (ErrorCode::UnsupportedLoop, "MIDNIGHT-301"),
        (ErrorCode::UnsupportedRecursion, "MIDNIGHT-302"),
    ];
    for (code, text) in codes {
        assert_eq!(code.as_str(), text);
    }
}

#[test]
fn diagnostics_keep_errors_in_order() {
    let mut errors = Diagnostics::new();
    assert!(!errors.has_errors());
    errors.push(MidnightError::new(at(1), ErrorCode::InvalidType, "first".to_string()));
    errors.push(MidnightError::new(at(2), ErrorCode::MissingLedger, "second".to_string()));
    assert!(errors.has_errors());
    assert_eq!(errors.errors().len(), 2);
    assert_eq!(errors.to_compile_errors(), vec!["[MIDNIGHT-001] first", "[MIDNIGHT-100] second"]);
    let first = errors.into_first_error();
    assert_eq!(first.to_compile_error(), "[MIDNIGHT-001] first");
}

// ---- attributes

#[test]
fn attribute_kinds_are_told_apart() {
    let kinds = [
        ("ledger", MidnightAttr::Ledger),
        ("witnesses", MidnightAttr::Witnesses),
        ("circuit", MidnightAttr::Circuit),
        ("constructor", MidnightAttr::Constructor),
        ("query", MidnightAttr::Query),
        ("event", MidnightAttr::Event),
        ("private", MidnightAttr::Private),
    ];
    for (name, kind) in kinds {
        let a = attribute("nocturne", vec![AttrToken::Ident(ident(name, 1))]);
        assert_eq!(MidnightAttr::from_attribute(&a).expect("known kind"), Some(kind));
    }
}

#[test]
fn malformed_attributes_say_why() {
    let message = |tokens: Vec<AttrToken>| {
        MidnightAttr::from_attribute(&attribute("nocturne", tokens)).expect_err("malformed").message
    };
    assert!(message(vec![]).contains("unexpected end of input, expected identifier"));
    assert!(message(vec![AttrToken::Keyword(ident("fn", 1))]).contains("found keyword `fn`"));
    assert!(message(vec![AttrToken::Other(at(1))]).contains("(expected identifier)"));
    let two = vec![AttrToken::Ident(ident("ledger", 1)), AttrToken::Comma(at(2)), AttrToken::Ident(ident("query", 3))];
    assert!(message(two).contains("expected a single attribute argument"));
    assert!(message(vec![AttrToken::Ident(ident("leger", 1))]).contains("unknown nocturne attribute `leger`"));
}

#[test]
fn foreign_attributes_are_left_alone() {
    let derive = attribute("derive", vec![AttrToken::Ident(ident("Clone", 1))]);
    assert_eq!(MidnightAttr::from_attribute(&derive).expect("foreign"), None);
    let ours = attribute("nocturne", vec![AttrToken::Ident(ident("ledger", 1))]);
    let list = vec![derive, ours];
    let found = find_midnight_attr(&list).expect("one of ours");
    assert_eq!(found.map(|(kind, span)| (kind, span.id)), Some((MidnightAttr::Ledger, 7)));
    let left = strip_midnight_attrs(&list);
    assert_eq!(left.len(), 1);
    assert_eq!(left[0].path.as_deref(), Some("derive"));
}

#[test]
fn two_attributes_of_ours_are_refused() {
    let list = vec![
        attribute("nocturne", vec![AttrToken::Ident(ident("ledger", 1))]),
        attribute("nocturne", vec![AttrToken::Ident(ident("query", 2))]),
    ];
    let error = find_midnight_attr(&list).expect_err("duplicate");
    assert_eq!(error.code, ErrorCode::InvalidAttribute);
    assert!(error.message.contains("duplicate"));
}

// ---- text

#[test]
fn decimal_numbers_round_trip() {
    assert_eq!(number(0), "0");
    assert_eq!(number(1234567890), "1234567890");
    assert_eq!(number(u128::MAX), "340282366920938463463374607431768211455");
    assert_eq!(parse_u32("4294967295"), Some(u32::MAX));
    assert_eq!(parse_u32("4294967296"), None);
    assert_eq!(parse_u32("007"), Some(7));
    assert_eq!(parse_u32("+7"), Some(7));
    assert_eq!(parse_u32(""), None);
    assert_eq!(parse_u32("+"), None);
    assert_eq!(parse_u32("7a"), None);
}

#[test]
fn text_is_cut_and_trimmed() {
    assert_eq!(strip_spaces("Map < u8 , u16 >"), "Map<u8,u16>");
    assert_eq!(strip_prefix("Uint<8>", "Uint<"), Some("8>"));
    assert_eq!(strip_prefix("Uint", "Uint<"), None);
    assert_eq!(strip_suffix("8>", ">"), Some("8"));
    assert_eq!(strip_suffix("8", ">"), None);
    assert_eq!(find_char("4,Bytes", ','), Some(1));
    assert_eq!(find_char("4", ','), None);
    assert_eq!(trim("  a b "), "a b");
    assert_eq!(trim("   "), "");
}

// ---- types and widths

#[test]
fn unsigned_types_have_their_width() {
    assert_eq!(parse_uint_type("u8"), Some(8));
    assert_eq!(parse_uint_type("u128"), Some(128));
    assert_eq!(parse_uint_type("Uint<64>"), Some(64));
    assert_eq!(parse_uint_type("Uint<x>"), None);
    assert_eq!(parse_uint_type("i32"), None);
}

#[test]
fn largest_values_saturate() {
    assert_eq!(uint_max_value(0), 0);
    assert_eq!(uint_max_value(1), 1);
    assert_eq!(uint_max_value(8), 255);
    assert_eq!(uint_max_value(64), u64::MAX as u128);
    assert_eq!(uint_max_value(127), u128::MAX >> 1);
    assert_eq!(uint_max_value(128), u128::MAX);
    assert_eq!(uint_max_value(500), u128::MAX);
}

#[test]
fn literal_widths_count_binary_digits() {
    assert_eq!(int_literal_width(0), 1);
    assert_eq!(int_literal_width(1), 1);
    assert_eq!(int_literal_width(255), 8);
    assert_eq!(int_literal_width(256), 9);
    assert_eq!(int_literal_width(u128::MAX), 128);
}

#[test]
fn transparent_wrappers_are_into_and_value() {
    assert!(is_transparent_wrapper("into"));
    assert!(is_transparent_wrapper("value"));
    assert!(!is_transparent_wrapper("get"));
}

#[test]
fn byte_strings_are_cut_at_31() {
    assert_eq!(chunk_count(0), 0);
    assert_eq!(chunk_count(31), 1);
    assert_eq!(chunk_count(32), 2);
    assert_eq!(chunk_count(62), 2);
    assert_eq!(bytes_n_layout(0), vec![]);
    assert_eq!(bytes_n_layout(31), vec![FrLayout::Bits(248)]);
    assert_eq!(bytes_n_layout(32), vec![FrLayout::Bits(8), FrLayout::Bits(248)]);
    assert_eq!(bytes_n_layout(62), vec![FrLayout::Bits(248), FrLayout::Bits(248)]);
    assert_eq!(parse_bytes_n_type("Bytes<32>"), Some(32));
    assert_eq!(parse_bytes_n_type("Bytes<0>"), None);
    assert_eq!(parse_bytes_n_type("Bytes"), None);
}

#[test]
fn layouts_have_one_entry_per_element() {
    let types = vec![
        NocturneType::Bool,
        NocturneType::Bytes(0),
        NocturneType::Bytes(32),
        NocturneType::Optional(Box::new(NocturneType::Bytes(32))),
        NocturneType::Array(Box::new(NocturneType::Bool), 3),
    ];
    for t in &types {
        let encoding = t.aligned_encoding().expect("encodes");
        assert_eq!(t.fr_layout().len(), encoding.value_field_count, "{t:?}");
        assert_eq!(encoding.alignment_atoms[0] as usize, encoding.alignment_atoms.len() - 1, "{t:?}");
    }
    let whole = compose(&types).expect("encodes");
    assert_eq!(whole.value_field_count, 1 + 2 + 3 + 3);
}

#[test]
fn merkle_paths_are_read() {
    assert_eq!(parse_merkle_tree_path_type("MerkleTreePath<4,Bytes<32>>"), Some((4, "Bytes<32>".to_string())));
    assert_eq!(parse_merkle_tree_path_type("MerkleTreePath<Bytes<32>>"), None);
    assert_eq!(parse_merkle_tree_path_type("Map<4,Bytes<32>>"), None);
    assert_eq!(witness_fr_layout_for_leaf_type("Bytes<32>"), vec![FrLayout::Bits(8), FrLayout::Bits(248)]);
    assert_eq!(witness_fr_layout_for_leaf_type("Field"), vec![FrLayout::Field]);
}

#[test]
fn ledger_kinds_go_by_name() {
    assert!(matches!(LedgerTypeKind::from_type_name("Counter"), LedgerTypeKind::Counter));
    assert!(matches!(LedgerTypeKind::from_type_name("Map"), LedgerTypeKind::LedgerMap));
    assert!(matches!(LedgerTypeKind::from_type_name("Set"), LedgerTypeKind::LedgerSet));
    match LedgerTypeKind::from_type_name("Bag") {
        LedgerTypeKind::Unknown(name) => assert_eq!(name, "Bag"),
        other => panic!("unexpected kind {other:?}"),
    }
}

// ---- instructions

#[test]
fn one_element_byte_strings_have_two_atoms() {
    let encoding = aligned_value_encoding_bytes(8);
    assert_eq!(encoding.alignment_atoms, vec![1, 8]);
    assert_eq!(encoding.value_field_count, 1);
}

#[test]
fn constants_keep_their_sign() {
    assert_eq!(Imm::from_i32(-2), Imm { negative: true, magnitude: 2 });
    assert_eq!(Imm::from_i32(i32::MIN), Imm { negative: true, magnitude: 1 << 31 });
    assert_eq!(Imm::from_u128(7), Imm { negative: false, magnitude: 7 });
}

#[test]
fn wires_are_consecutive() {
    assert_eq!(gather_n_vars(3, 0), Vec::<u32>::new());
    assert_eq!(gather_n_vars(3, 3), vec![3, 4, 5]);
    assert_eq!(gather_n_vars(u32::MAX, 2), vec![u32::MAX, 0]);
}

#[test]
fn instructions_have_their_output_count() {
    assert_eq!(instruction_output_count(&Instruction::Assert { cond: 0 }), 0);
    assert_eq!(instruction_output_count(&Instruction::LoadImm { imm: Imm::from_u128(1) }), 1);
    assert_eq!(instruction_output_count(&Instruction::PrivateInput { guard: None }), 1);
    let hash = Instruction::PersistentHash { alignment: vec![AlignmentAtom::Field], inputs: vec![0] };
    assert_eq!(instruction_output_count(&hash), 2);
    assert_eq!(instruction_output_count(&Instruction::TransientHash { inputs: vec![0] }), 1);
}

// ---- names

#[test]
fn name_maps_hold_the_last_value() {
    let mut m: NameMap<String> = NameMap::new();
    m.insert("a".to_string(), "1".to_string());
    m.insert("b".to_string(), "2".to_string());
    m.insert("a".to_string(), "3".to_string());
    assert_eq!(m.get("a").map(|s| s.as_str()), Some("3"));
    assert!(m.contains_key("b"));
    m.remove("a");
    assert!(!m.contains_key("a"));
    assert_eq!(m.get("a"), None);
    assert_eq!(m.get("b").map(|s| s.as_str()), Some("2"));
}

#[test]
fn name_sets_hold_each_name_once() {
    let mut s = NameSet::new();
    assert!(!s.contains("a"));
    s.insert("a".to_string());
    s.insert("a".to_string());
    assert!(s.contains("a"));
    s.remove("a");
    assert!(!s.contains("a"));
}

// ---- witnesses and renaming

#[test]
fn only_the_first_touch_allocates() {
    let mut t = FirstTouchTracker::new();
    assert!(t.touch("x"));
    assert!(!t.touch("x"));
    assert!(!t.set_branch(true));
    assert!(t.branch());
    assert!(t.touch("y"));
    assert!(!t.touch("y"));
    assert!(t.set_branch(false));
    assert!(!t.touch("y"));
    assert!(t.touch("z"));
}

#[test]
fn witness_fields_are_found_behind_references() {
    let access = ExprIR::WitnessAccess { span: at(0), field: "path".to_string() };
    let referenced = ExprIR::Reference { span: at(0), expr: Box::new(access) };
    assert_eq!(find_witness_field(&referenced).map(|f| f.as_str()), Some("path"));
    assert_eq!(find_witness_field(&literal(1)), None);
}

#[test]
fn spliced_bindings_get_fresh_names() {
    let mut names: NameMap<String> = NameMap::new();
    names.insert("p".to_string(), "__h2_0_p".to_string());
    let mut seq: u32 = 1;
    let body = ExprIR::Block {
        span: at(0),
        stmts: vec![
            ExprIR::Let { span: at(0), name: "x".to_string(), value: Box::new(var("p")) },
            ExprIR::Let { span: at(0), name: "x".to_string(), value: Box::new(var("x")) },
            var("x"),
            var("free"),
        ],
    };
    let renamed = alpha_rename(&body, &mut names, 2, &mut seq);
    match renamed {
        ExprIR::Block { stmts, .. } => {
            match &stmts[0] {
                ExprIR::Let { name, value, .. } => {
                    assert_eq!(name, "__h2_1_x");
                    assert!(matches!(&**value, ExprIR::Var { name, .. } if name == "__h2_0_p"));
                }
                other => panic!("unexpected {other:?}"),
            }
            match &stmts[1] {
                ExprIR::Let { name, value, .. } => {
                    assert_eq!(name, "__h2_2_x");
                    assert!(matches!(&**value, ExprIR::Var { name, .. } if name == "__h2_1_x"));
                }
                other => panic!("unexpected {other:?}"),
            }
            assert!(matches!(&stmts[2], ExprIR::Var { name, .. } if name == "__h2_2_x"));
            assert!(matches!(&stmts[3], ExprIR::Var { name, .. } if name == "free"));
        }
        other => panic!("unexpected {other:?}"),
    }
    assert_eq!(seq, 3);
}
