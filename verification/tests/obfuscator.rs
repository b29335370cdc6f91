use fixdecoder::obfuscator::{calculate_checksum, refresh_fix_lengths, split_once, Obfuscator};
use fixdecoder::sensitive::sensitive_tag_names;
use std::collections::BTreeMap;

const SOH: char = '\u{1}';

fn fix_message(fields: &[(&str, &str)]) -> String {
    let mut fragments = vec!["8=FIX.4.4".to_string(), "9=000".to_string()];
    fragments.extend(fields.iter().map(|(tag, value)| format!("{tag}={value}")));
    fragments.push("10=000".to_string());
    refresh_fix_lengths(&mut fragments);
    let mut msg = fragments.join(&SOH.to_string());
    msg.push(SOH);
    msg
}

#[test]
fn disabled_obfuscator_returns_original_line_and_reset_is_noop() {
    let mut obfuscator = Obfuscator::from_sensitive_tags(&sensitive_tag_names(), false);
    let line = fix_message(&[("35", "0"), ("49", "ABC"), ("56", "DEF")]);
    assert_eq!(obfuscator.enabled_line(&line), line);
    assert_eq!(obfuscator.obfuscate_line(&line), line);
    obfuscator.reset();
    assert_eq!(obfuscator.enabled_line(&line), line);
}

#[test]
fn obfuscate_line_leaves_non_sensitive_and_malformed_fragments_unchanged() {
    let mut obfuscator = Obfuscator::from_sensitive_tags(&sensitive_tag_names(), true);
    let line = "plain log line without FIX";
    assert_eq!(obfuscator.obfuscate_line(line), line);
}

#[test]
fn split_once_accepts_equals_and_soh_delimiters() {
    assert_eq!(split_once("49=ABC"), Some(("49".to_string(), "ABC".to_string())));
    assert_eq!(split_once("49\u{0001}ABC"), Some(("49".to_string(), "ABC".to_string())));
    assert_eq!(split_once("no-delimiter"), None);
}

#[test]
fn reset_starts_aliases_over() {
    let mut obfuscator = Obfuscator::from_sensitive_tags(&sensitive_tag_names(), true);
    let first = obfuscator.obfuscate_line(&fix_message(&[("35", "0"), ("49", "ABC")]));
    let second = obfuscator.obfuscate_line(&fix_message(&[("35", "0"), ("49", "DEF")]));
    assert_ne!(first, second);
    obfuscator.reset();
    let third = obfuscator.obfuscate_line(&fix_message(&[("35", "0"), ("49", "ABC")]));
    assert_eq!(first, third, "aliases should restart after reset");
}

#[test]
fn obfuscate_line_preserves_mixed_log_context_and_repairs_fix_lengths() {
    let mut obfuscator = Obfuscator::from_sensitive_tags(&sensitive_tag_names(), true);
    let line = format!(
        "ts=2025-01-01T00:00:00Z {} trailing context",
        fix_message(&[("35", "A"), ("49", "BUY1"), ("56", "SELL1"), ("98", "0"),])
    );
    let obfuscated = obfuscator.obfuscate_line(&line);

    assert!(obfuscated.starts_with("ts=2025-01-01T00:00:00Z 8=FIX.4.4"));
    assert!(obfuscated.contains("49=SenderCompID0001"));
    assert!(obfuscated.contains("56=TargetCompID0001"));
    assert!(obfuscated.ends_with(" trailing context"));

    let start = obfuscated.find("8=FIX").expect("find FIX start");
    let end = obfuscated[start..]
        .find(&format!("{SOH} trailing context"))
        .expect("find FIX end");
    let fix_msg = &obfuscated[start..start + end + 1];
    let declared_len = fix_msg
        .split(SOH)
        .find_map(|fragment| fragment.strip_prefix("9="))
        .and_then(|value| value.parse::<usize>().ok())
        .expect("body length");
    let actual_len: usize = fix_msg
        .split(SOH)
        .skip_while(|fragment| !fragment.starts_with("9="))
        .skip(1)
        .take_while(|fragment| !fragment.starts_with("10="))
        .map(|fragment| fragment.len() + 1)
        .sum();
    let checksum = fix_msg
        .split(SOH)
        .find_map(|fragment| fragment.strip_prefix("10="))
        .and_then(|value| value.parse::<i32>().ok())
        .expect("checksum");

    assert_eq!(declared_len, actual_len);
    assert_eq!(
        checksum,
        calculate_checksum(
            &fix_msg
                .split(SOH)
                .filter(|fragment| !fragment.is_empty())
                .map(str::to_string)
                .collect::<Vec<_>>(),
            fix_msg
                .split(SOH)
                .position(|fragment| fragment.starts_with("10="))
                .expect("checksum index")
        )
    );
}

// ---------------------------------------------------------------------------
// Further cases

fn value_of(line: &str, tag: &str) -> String {
    let prefix = format!("{tag}=");
    line.split(SOH)
        .find_map(|fragment| fragment.strip_prefix(prefix.as_str()))
        .expect("tag")
        .to_string()
}

#[test]
fn aliases_are_stable_and_distinct() {
    let mut obfuscator = Obfuscator::from_sensitive_tags(&sensitive_tag_names(), true);
    let first = obfuscator.obfuscate_line(&fix_message(&[("35", "0"), ("49", "ABC")]));
    let other = obfuscator.obfuscate_line(&fix_message(&[("35", "0"), ("49", "DEF")]));
    let again = obfuscator.obfuscate_line(&fix_message(&[("35", "1"), ("49", "ABC")]));
    assert_eq!(value_of(&first, "49"), "SenderCompID0001");
    assert_eq!(value_of(&other, "49"), "SenderCompID0002");
    assert_eq!(value_of(&again, "49"), "SenderCompID0001");
}

#[test]
fn values_that_are_not_sensitive_stay() {
    let mut obfuscator = Obfuscator::from_sensitive_tags(&sensitive_tag_names(), true);
    assert!(obfuscator.is_enabled());
    let line = fix_message(&[("35", "D"), ("55", "AAPL")]);
    assert_eq!(obfuscator.obfuscate_line(&line), line);
}

#[test]
fn positions_count_characters() {
    let mut obfuscator = Obfuscator::from_sensitive_tags(&sensitive_tag_names(), true);
    let line = format!("caf\u{e9} {} \u{20ac}", fix_message(&[("35", "0"), ("49", "X")]));
    let hidden = obfuscator.obfuscate_line(&line);
    assert!(hidden.starts_with("caf\u{e9} 8=FIX.4.4"));
    assert!(hidden.ends_with(" \u{20ac}"));
    assert!(hidden.contains("49=SenderCompID0001"));
}

#[test]
fn aliases_are_numbered_for_each_tag() {
    let mut tags = BTreeMap::new();
    tags.insert(49, "SenderCompID");
    tags.insert(56, "TargetCompID");
    let mut obfuscator = Obfuscator::from_sensitive_tags(&tags, true);
    let text = obfuscator.obfuscate_fix_message("49=A\u{1}56=A\u{1}49=B\u{1}49=A\u{1}56=C\u{1}");
    assert_eq!(
        text,
        "49=SenderCompID0001\u{1}56=TargetCompID0001\u{1}49=SenderCompID0002\u{1}\
         49=SenderCompID0001\u{1}56=TargetCompID0002\u{1}"
    );
}

#[test]
fn values_keep_the_alias_they_are_given() {
    let mut obfuscator = Obfuscator::from_sensitive_tags(&BTreeMap::new(), true);
    assert_eq!(obfuscator.next_alias(49, "A", "SenderCompID"), "SenderCompID0001");
    assert_eq!(obfuscator.next_alias(49, "B", "SenderCompID"), "SenderCompID0002");
    assert_eq!(obfuscator.next_alias(56, "A", "TargetCompID"), "TargetCompID0001");
    assert_eq!(obfuscator.next_alias(49, "A", "SenderCompID"), "SenderCompID0001");
    for n in 3..=10_001 {
        let alias = obfuscator.next_alias(49, &format!("v{n}"), "SenderCompID");
        assert_eq!(alias, format!("SenderCompID{n:04}"));
    }
}
