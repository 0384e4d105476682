use spice::{tokenize, FieldKind, ParseError, SpiceContext, SpiceLine, SpiceSrc};

fn magnitude(v: &SpiceSrc) -> f64 {
    v.magnitude().parse::<f64>().unwrap()
}

fn field_error(field: FieldKind, token: &str) -> ParseError {
    ParseError::FieldFormat { field, token: token.to_string() }
}

#[test]
fn dc_source_and_resistor_then_end() {
    let (ctx, r) = SpiceContext::parse("v1 1 0 dc 12.0 r1 1 0 2.2e3 end");
    assert_eq!(r, Ok(()));
    assert!(ctx.is_finalized());
    let els = ctx.elements();
    assert_eq!(els.len(), 2);
    assert_eq!(els[0].get_name(), "v1");
    assert_eq!(els[0].get_nets(), &vec![1u8, 0u8]);
    assert!(els[0].get_value().is_dc());
    assert_eq!(magnitude(els[0].get_value()), 12.0);
    assert_eq!(els[1].get_name(), "r1");
    assert_eq!(els[1].get_nets(), &vec![1u8, 0u8]);
    assert!(!els[1].get_value().is_dc());
    assert_eq!(magnitude(els[1].get_value()), 2200.0);
}

#[test]
fn end_alone_finalizes_empty_context() {
    let (ctx, r) = SpiceContext::parse("end");
    assert_eq!(r, Ok(()));
    assert!(ctx.elements().is_empty());
    assert!(ctx.is_finalized());
}

#[test]
fn empty_input_gives_empty_open_context() {
    let (ctx, r) = SpiceContext::parse("");
    assert_eq!(r, Ok(()));
    assert!(ctx.elements().is_empty());
    assert!(!ctx.is_finalized());
    let (ctx, r) = SpiceContext::parse(" \t\n ");
    assert_eq!(r, Ok(()));
    assert!(ctx.elements().is_empty());
    assert!(!ctx.is_finalized());
}

#[test]
fn single_resistor_without_end_stays_open() {
    let (ctx, r) = SpiceContext::parse("r1 1 0 1000");
    assert_eq!(r, Ok(()));
    assert!(!ctx.is_finalized());
    assert_eq!(ctx.elements().len(), 1);
    assert_eq!(ctx.elements()[0].get_value(), &SpiceSrc::JustValue("1000".to_string()));
    assert_eq!(magnitude(ctx.elements()[0].get_value()), 1000.0);
}

#[test]
fn dc_without_value_is_malformed_tail() {
    let (ctx, r) = SpiceContext::parse("v1 1 0 dc");
    assert_eq!(r, Err(ParseError::MalformedTail { tokens_remaining: 4 }));
    assert!(ctx.elements().is_empty());
    assert!(!ctx.is_finalized());
}

#[test]
fn bad_first_net_is_field_format() {
    let (ctx, r) = SpiceContext::parse("v1 a 0 dc 12.0");
    assert_eq!(r, Err(field_error(FieldKind::Net1, "a")));
    assert!(ctx.elements().is_empty());
    assert!(!ctx.is_finalized());
}

#[test]
fn bad_second_net_is_field_format() {
    let (ctx, r) = SpiceContext::parse("r1 1 x 5");
    assert_eq!(r, Err(field_error(FieldKind::Net2, "x")));
    assert!(ctx.elements().is_empty());
}

#[test]
fn trailing_end_after_elements_finalizes() {
    let (ctx, r) = SpiceContext::parse("r1 1 0 5 r2 2 0 6 end");
    assert_eq!(r, Ok(()));
    assert!(ctx.is_finalized());
    assert_eq!(ctx.elements().len(), 2);
    assert_eq!(ctx.elements()[1].get_name(), "r2");
    assert_eq!(ctx.elements()[1].get_nets(), &vec![2u8, 0u8]);
}

#[test]
fn short_input_without_end_is_malformed_tail() {
    for (text, n) in [("r1", 1usize), ("r1 1", 2), ("r1 1 0", 3)] {
        let (ctx, r) = SpiceContext::parse(text);
        assert_eq!(r, Err(ParseError::MalformedTail { tokens_remaining: n }));
        assert!(ctx.elements().is_empty());
        assert!(!ctx.is_finalized());
    }
}

#[test]
fn bad_value_keeps_prior_elements() {
    let (ctx, r) = SpiceContext::parse("r1 1 0 5 r2 2 0 abc end");
    assert_eq!(r, Err(field_error(FieldKind::Value, "abc")));
    assert_eq!(ctx.elements().len(), 1);
    assert_eq!(ctx.elements()[0].get_name(), "r1");
    assert!(!ctx.is_finalized());
}

#[test]
fn bad_dc_value_is_field_format() {
    let (ctx, r) = SpiceContext::parse("v1 1 0 dc abc");
    assert_eq!(r, Err(field_error(FieldKind::Value, "abc")));
    assert!(ctx.elements().is_empty());
}

#[test]
fn elements_come_in_source_order() {
    let (ctx, r) = SpiceContext::parse("a 1 2 1 b 3 4 dc 2 c 5 6 3");
    assert_eq!(r, Ok(()));
    let names: Vec<&str> = ctx.elements().iter().map(|l| l.get_name().as_str()).collect();
    assert_eq!(names, vec!["a", "b", "c"]);
    assert_eq!(ctx.elements()[1].get_nets(), &vec![3u8, 4u8]);
    assert_eq!(ctx.elements()[2].get_nets(), &vec![5u8, 6u8]);
}

#[test]
fn net_order_is_kept() {
    let (ctx, _) = SpiceContext::parse("v1 0 1 dc 5");
    assert_eq!(ctx.elements()[0].get_nets(), &vec![0u8, 1u8]);
}

#[test]
fn every_element_has_two_nets() {
    let (ctx, _) = SpiceContext::parse("a 1 2 1 b 3 4 dc 2 c 5 6 3 end");
    for line in ctx.elements() {
        assert_eq!(line.get_nets().len(), 2);
    }
}

#[test]
fn net_bounds() {
    let (ctx, r) = SpiceContext::parse("r1 255 0 1");
    assert_eq!(r, Ok(()));
    assert_eq!(ctx.elements()[0].get_nets(), &vec![255u8, 0u8]);
    let (_, r) = SpiceContext::parse("r1 256 0 1");
    assert_eq!(r, Err(field_error(FieldKind::Net1, "256")));
    let (ctx, r) = SpiceContext::parse("r1 +7 007 1");
    assert_eq!(r, Ok(()));
    assert_eq!(ctx.elements()[0].get_nets(), &vec![7u8, 7u8]);
    let (_, r) = SpiceContext::parse("r1 -1 0 1");
    assert_eq!(r, Err(field_error(FieldKind::Net1, "-1")));
    let (_, r) = SpiceContext::parse("r1 + 0 1");
    assert_eq!(r, Err(field_error(FieldKind::Net1, "+")));
}

#[test]
fn float_literal_forms() {
    for text in ["1", "-1.5", "+.5", "1.", "2.2E3", "1e-3", "7e+2", "inf", "-Infinity", "NaN"] {
        let (ctx, r) = SpiceContext::parse(&format!("r1 1 0 {}", text));
        assert_eq!(r, Ok(()), "{}", text);
        assert!(text.parse::<f64>().is_ok());
        assert_eq!(ctx.elements()[0].get_value().magnitude(), text);
    }
    for text in [".", "e5", "1e", "1.2.3", "1e5.0", "--1", "infin", "1k", "0x10"] {
        let (_, r) = SpiceContext::parse(&format!("r1 1 0 {}", text));
        assert_eq!(r, Err(field_error(FieldKind::Value, text)), "{}", text);
        assert!(text.parse::<f64>().is_err());
    }
}

#[test]
fn end_is_lowercase_only() {
    let (ctx, r) = SpiceContext::parse("END");
    assert_eq!(r, Err(ParseError::MalformedTail { tokens_remaining: 1 }));
    assert!(!ctx.is_finalized());
}

#[test]
fn dc_keyword_is_lowercase_only() {
    let (_, r) = SpiceContext::parse("v1 1 0 DC 5");
    assert_eq!(r, Err(field_error(FieldKind::Value, "DC")));
}

#[test]
fn parsing_stops_at_end() {
    let (ctx, r) = SpiceContext::parse("r1 1 0 5 end x");
    assert_eq!(r, Ok(()));
    assert!(ctx.is_finalized());
    assert_eq!(ctx.elements().len(), 1);
}

#[test]
fn finalized_context_takes_nothing_more() {
    let ctx = SpiceContext::new().add_multiple("r1 1 0 5 end".to_string());
    let ctx = ctx.add_multiple("r2 1 0 6".to_string());
    assert!(ctx.is_finalized());
    assert_eq!(ctx.elements().len(), 1);
}

#[test]
fn add_multiple_appends_and_drops_error() {
    let ctx = SpiceContext::new().add_multiple("r1 1 0 5".to_string());
    let ctx = ctx.add_multiple("r2 2 0 6 r3 q 0 1".to_string());
    assert!(!ctx.is_finalized());
    assert_eq!(ctx.elements().len(), 2);
    assert_eq!(ctx.elements()[1].get_name(), "r2");
}

#[test]
fn whitespace_of_any_kind_separates_tokens() {
    assert_eq!(tokenize("  v1\t1\n0  dc\r\n12.0 "), vec!["v1", "1", "0", "dc", "12.0"]);
    assert!(tokenize("").is_empty());
    let (ctx, r) = SpiceContext::parse("v1\t1\n0 dc 12.0\nend\n");
    assert_eq!(r, Ok(()));
    assert!(ctx.is_finalized());
    assert_eq!(ctx.elements().len(), 1);
}

#[test]
fn recognizer_reports_tokens_taken() {
    let tokens = tokenize("v1 1 0 dc 5 r1 1 0 2 end");
    let mut ctx = SpiceContext::new();
    assert_eq!(ctx.from_tokens(&tokens, 0), Ok(5));
    assert_eq!(ctx.elements().len(), 1);
    assert_eq!(ctx.from_tokens(&tokens, 5), Ok(4));
    assert_eq!(ctx.elements().len(), 2);
    assert_eq!(ctx.from_tokens(&tokens, 9), Ok(1));
    assert!(ctx.is_finalized());
    assert_eq!(ctx.from_tokens(&tokens, 10), Ok(0));
}

#[test]
fn add_tokens_drives_from_the_start() {
    let tokens: Vec<String> = ["r1", "1", "0", "5", "end"].iter().map(|s| s.to_string()).collect();
    let mut ctx = SpiceContext::new();
    assert_eq!(ctx.add_tokens(&tokens), Ok(()));
    assert!(ctx.is_finalized());
    assert_eq!(ctx.elements().len(), 1);
}

#[test]
fn line_builders() {
    let line = SpiceLine::new();
    assert_eq!(line.get_name(), "v1");
    assert_eq!(line.get_nets(), &vec![1u8, 0u8]);
    assert_eq!(line.get_value(), &SpiceSrc::DCValue("1.0".to_string()));
    let line = line.name("r9").nets(3, 4).value(SpiceSrc::JustValue("47".to_string()));
    assert_eq!(line.get_name(), "r9");
    assert_eq!(line.get_nets(), &vec![3u8, 4u8]);
    assert_eq!(magnitude(line.get_value()), 47.0);
}

#[test]
fn element_named_end_with_four_tokens() {
    let (ctx, r) = SpiceContext::parse("end 1 0 5");
    assert_eq!(r, Ok(()));
    assert!(!ctx.is_finalized());
    assert_eq!(ctx.elements()[0].get_name(), "end");
}
