use surfacide::cst::CstNode;
use surfacide::slot::{
    AuthChannelTag, AvailabilityValue, FreshnessValue, RateLimitValue, RetentionValue, SlotKind, SlotValue,
};
use surfacide::slot_syntax::{convert_slot_assign, convert_slot_call, convert_slot_value};
use surfacide::span::{FileId, Span};

fn leaf(kind: &str, field: Option<&str>, start: u32, end: u32) -> CstNode {
    CstNode {
        kind: kind.to_string(),
        field: field.map(|f| f.to_string()),
        named: true,
        error: false,
        missing: false,
        start,
        end,
        children: Vec::new(),
    }
}

fn with(mut n: CstNode, children: Vec<CstNode>) -> CstNode {
    n.children = children;
    n
}

// Source: "per_actor(5, per: MINUTE)"
//          0        9 11  15   20    26
fn per_actor_tree() -> CstNode {
    let arg_num = with(leaf("call_arg", None, 10, 11), vec![leaf("number", Some("value"), 10, 11)]);
    let named = with(
        leaf("named_arg", None, 13, 24),
        vec![
            leaf("identifier", Some("name"), 13, 16),
            with(leaf("identifier_expr", Some("value"), 18, 24), vec![leaf("identifier", None, 18, 24)]),
        ],
    );
    let arg_per = with(leaf("call_arg", None, 13, 24), vec![named]);
    with(
        leaf("slot_call", None, 0, 25),
        vec![
            leaf("identifier", Some("name"), 0, 9),
            with(leaf("call_args", Some("args"), 9, 25), vec![arg_num, arg_per]),
        ],
    )
}

#[test]
fn per_actor_call_reads_count_and_period() {
    let source = "per_actor(5, per: MINUTE)";
    match convert_slot_call(&per_actor_tree(), source, FileId(2)) {
        SlotValue::RateLimit(RateLimitValue::PerActor { n, period }) => {
            assert_eq!(n, 5);
            assert_eq!(period.as_str(), "MINUTE");
            assert_eq!(period.span, Span::new(FileId(2), 18, 24));
        }
        other => panic!("unexpected {:?}", other),
    }
}

#[test]
fn bare_names_map_to_their_values() {
    let source = "strong critical bearer_token ephemeral wobble";
    let call = |s: u32, e: u32| with(leaf("slot_call", None, s, e), vec![leaf("identifier", Some("name"), s, e)]);
    assert!(matches!(convert_slot_call(&call(0, 6), source, FileId(0)), SlotValue::Freshness(FreshnessValue::Strong)));
    assert!(matches!(
        convert_slot_call(&call(7, 15), source, FileId(0)),
        SlotValue::Availability(AvailabilityValue::Critical)
    ));
    match convert_slot_call(&call(16, 28), source, FileId(0)) {
        SlotValue::AuthChannel(v) => {
            assert_eq!(v.channels, vec![AuthChannelTag::BearerToken]);
            assert!(!v.set_form);
        }
        other => panic!("unexpected {:?}", other),
    }
    assert!(matches!(
        convert_slot_call(&call(29, 38), source, FileId(0)),
        SlotValue::Retention(RetentionValue::Ephemeral)
    ));
    match convert_slot_call(&call(39, 45), source, FileId(0)) {
        SlotValue::Unknown(id) => {
            assert_eq!(id.as_str(), "wobble");
            assert_eq!(id.span, Span::new(FileId(0), 39, 45));
        }
        other => panic!("unexpected {:?}", other),
    }
}

#[test]
fn count_that_does_not_parse_is_zero_and_missing_period_is_marked() {
    // "global(x)"
    let source = "global(x)";
    let arg = with(leaf("call_arg", None, 7, 8), vec![leaf("identifier", Some("value"), 7, 8)]);
    let tree = with(
        leaf("slot_call", None, 0, 9),
        vec![leaf("identifier", Some("name"), 0, 6), with(leaf("call_args", Some("args"), 6, 9), vec![arg])],
    );
    match convert_slot_call(&tree, source, FileId(0)) {
        SlotValue::RateLimit(RateLimitValue::Global { n, period }) => {
            assert_eq!(n, 0);
            assert_eq!(period.as_str(), "<missing>");
            assert_eq!(period.span, Span::new(FileId(0), 0, 9));
        }
        other => panic!("unexpected {:?}", other),
    }
}

#[test]
fn waiver_reason_loses_its_quotes() {
    // "waived: \"legacy\""
    let source = "waived: \"legacy\"";
    let waiver = with(leaf("slot_waiver", None, 0, 16), vec![leaf("string", Some("reason"), 8, 16)]);
    let value = with(leaf("slot_value", None, 0, 16), vec![waiver]);
    match convert_slot_value(&value, source, FileId(0)) {
        SlotValue::Waived { reason, reason_span } => {
            assert_eq!(reason, "legacy");
            assert_eq!(reason_span, Span::new(FileId(0), 0, 16));
        }
        other => panic!("unexpected {:?}", other),
    }
}

#[test]
fn slot_assign_reads_kind_and_value() {
    // "freshness: strong"
    let source = "freshness: strong";
    let call = with(leaf("slot_call", None, 11, 17), vec![leaf("identifier", Some("name"), 11, 17)]);
    let node = with(
        leaf("slot_assign", None, 0, 17),
        vec![leaf("identifier", Some("slot"), 0, 9), with(leaf("slot_value", Some("value"), 11, 17), vec![call])],
    );
    let sa = convert_slot_assign(&node, source, FileId(0));
    assert_eq!(sa.kind, SlotKind::Freshness);
    assert!(matches!(sa.value, SlotValue::Freshness(FreshnessValue::Strong)));
    assert_eq!(sa.span, Span::new(FileId(0), 0, 17));

    let bare = leaf("slot_assign", None, 0, 17);
    let sa = convert_slot_assign(&bare, source, FileId(0));
    assert_eq!(sa.kind, SlotKind::Idempotency);
    match sa.value {
        SlotValue::Unknown(id) => assert_eq!(id.as_str(), "<missing>"),
        other => panic!("unexpected {:?}", other),
    }
}
