use qir_interp::decode::{decode_line, extract_id_bytes, parse_args_bytes, Line, Payload};
use qir_interp::parser::QirParser;

fn b(s: &str) -> Vec<u8> {
    s.as_bytes().to_vec()
}

#[test]
fn label_line_decodes_to_its_name() {
    assert_eq!(decode_line("  entry:  "), Line::Label(b("entry")));
}

#[test]
fn unconditional_branch_decodes() {
    assert_eq!(decode_line("  br label %block2"), Line::Branch(b("block2")));
}

#[test]
fn conditional_branch_decodes() {
    assert_eq!(
        decode_line("br i1 %r0, label %then, label %else"),
        Line::CondBranch(b("r0"), b("then"), b("else"))
    );
}

#[test]
fn void_call_decodes() {
    assert_eq!(
        decode_line("  call void @__quantum__qis__h__body(%Qubit* null)"),
        Line::Call(None, b("__quantum__qis__h__body"), b("%Qubit* null"))
    );
}

#[test]
fn bound_call_keeps_nested_parentheses() {
    assert_eq!(
        decode_line("%0 = call i1 @__quantum__qis__read_result__body(%Result* inttoptr (i64 1 to %Result*))"),
        Line::Call(
            Some(b("0")),
            b("__quantum__qis__read_result__body"),
            b("%Result* inttoptr (i64 1 to %Result*)")
        )
    );
}

#[test]
fn runtime_namespace_call_decodes() {
    assert_eq!(
        decode_line("call void @__quantum__rt__initialize(i8* null)"),
        Line::Call(None, b("__quantum__rt__initialize"), b("i8* null"))
    );
}

#[test]
fn inert_lines() {
    assert_eq!(decode_line(""), Line::Inert);
    assert_eq!(decode_line("   "), Line::Inert);
    assert_eq!(decode_line("; a comment:"), Line::Inert);
    assert_eq!(decode_line("ret void"), Line::Inert);
    assert_eq!(decode_line("call void @printf(i8* null)"), Line::Inert);
    assert_eq!(decode_line("call void @__quantum__qis__h__body(%Qubit* null"), Line::Inert);
}

#[test]
fn null_argument_is_zero() {
    assert_eq!(extract_id_bytes(b"%Qubit* null"), Payload::Bits(0));
}

#[test]
fn inttoptr_argument_gives_embedded_integer() {
    assert_eq!(extract_id_bytes(b"%Qubit* inttoptr (i64 7 to %Qubit*)"), Payload::Bits(7));
}

#[test]
fn double_argument_gives_ieee_bits() {
    let p = extract_id_bytes(b"double 1.570796");
    assert_eq!(p, Payload::Float(b("1.570796")));
    match p {
        Payload::Float(t) => {
            let v: f64 = std::str::from_utf8(&t).unwrap().parse().unwrap();
            assert_eq!(v.to_bits(), 1.570796f64.to_bits());
        }
        Payload::Bits(_) => panic!("expected a float literal"),
    }
}

#[test]
fn null_rule_comes_before_float_rule() {
    assert_eq!(extract_id_bytes(b"double null"), Payload::Bits(0));
}

#[test]
fn plain_argument_gives_trailing_integer() {
    assert_eq!(extract_id_bytes(b"i64 5"), Payload::Bits(5));
    assert_eq!(extract_id_bytes(b"%Qubit* %q"), Payload::Bits(0));
}

#[test]
fn oversized_integer_decodes_to_zero() {
    assert_eq!(extract_id_bytes(b"i64 99999999999999999999"), Payload::Bits(0));
    assert_eq!(extract_id_bytes(b"i64 18446744073709551615"), Payload::Bits(u64::MAX));
}

#[test]
fn arguments_split_at_top_level_commas() {
    assert_eq!(
        parse_args_bytes(b"%Qubit* inttoptr (i64 1 to %Qubit*), %Result* null"),
        vec![Payload::Bits(1), Payload::Bits(0)]
    );
    assert_eq!(
        parse_args_bytes(b"double 0.5, %Qubit* null"),
        vec![Payload::Float(b("0.5")), Payload::Bits(0)]
    );
    assert_eq!(parse_args_bytes(b""), Vec::<Payload>::new());
    assert_eq!(parse_args_bytes(b" , %Qubit* null"), vec![Payload::Bits(0)]);
}

#[test]
fn parser_methods_decode_arguments() {
    let p = QirParser::new(&Vec::new());
    assert_eq!(p.len(), 0);
    assert_eq!(p.extract_id("  %Qubit* inttoptr (i64 12 to %Qubit*) "), Payload::Bits(12));
    assert_eq!(
        p.parse_args("%Qubit* null, %Qubit* inttoptr (i64 2 to %Qubit*)"),
        vec![Payload::Bits(0), Payload::Bits(2)]
    );
}

#[test]
fn parser_finds_first_label_definition() {
    let text: Vec<String> = vec!["a:".to_string(), "b:".to_string(), "a:".to_string()];
    let p = QirParser::new(&text);
    assert_eq!(p.find_label(b"a"), Some(0));
    assert_eq!(p.find_label(b"b"), Some(1));
    assert_eq!(p.find_label(b"c"), None);
}
