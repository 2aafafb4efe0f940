use spacing_calculator::fit::{compute_fit, fit_from_text, FitResult};
use spacing_calculator::log::{breakdown_lines, format_entry, residual_label, OutputLog};
use spacing_calculator::registry::SpacerRegistry;

fn nylon_set() -> SpacerRegistry {
    let mut r = SpacerRegistry::new();
    r.add("half", "0.5").unwrap();
    r.add("three eighths", "0.375").unwrap();
    r.add("quarter", "0.25").unwrap();
    r.add("eighth", "0.125").unwrap();
    r
}

fn used(fit: &FitResult, r: &SpacerRegistry) -> u64 {
    let mut sum: u64 = 0;
    for i in 0..r.len() {
        sum += fit.counts[i] * r.get(i).thickness;
    }
    sum
}

#[test]
fn largest_spacer_goes_first() {
    let r = nylon_set();
    let fit = fit_from_text("0.8", &r).unwrap();
    assert_eq!(fit.requested, 800_000);
    assert_eq!(fit.counts, vec![1, 0, 1, 0]);
    assert_eq!(fit.residual, 50_000);
    assert_eq!(residual_label(&fit), "Off by 0.05");
}

#[test]
fn zero_target_uses_nothing() {
    let r = nylon_set();
    let fit = fit_from_text("0.0", &r).unwrap();
    assert_eq!(fit.counts, vec![0, 0, 0, 0]);
    assert_eq!(fit.residual, 0);
    assert_eq!(residual_label(&fit), "Off by 0");
}

#[test]
fn disabled_spacer_is_passed_over() {
    let mut r = SpacerRegistry::new();
    r.add("half", "0.5").unwrap();
    r.add("quarter", "0.25").unwrap();
    r.toggle_enabled(0);
    let fit = fit_from_text("0.5", &r).unwrap();
    assert_eq!(fit.counts, vec![0, 2]);
    assert_eq!(fit.residual, 0);
}

#[test]
fn unreadable_target_gives_no_fit() {
    let r = nylon_set();
    assert!(fit_from_text("abc", &r).is_none());
    assert!(fit_from_text("", &r).is_none());
    assert!(fit_from_text("-0.5", &r).is_none());
}

#[test]
fn target_below_every_spacer() {
    let r = nylon_set();
    let fit = compute_fit(100_000, &r);
    assert_eq!(fit.counts, vec![0, 0, 0, 0]);
    assert_eq!(fit.residual, 100_000);
    assert_eq!(fit.requested, 100_000);
}

#[test]
fn no_enabled_spacer() {
    let mut r = nylon_set();
    for i in 0..r.len() {
        r.toggle_enabled(i);
    }
    let fit = compute_fit(2_000_000, &r);
    assert_eq!(fit.counts, vec![0, 0, 0, 0]);
    assert_eq!(fit.residual, 2_000_000);
}

#[test]
fn empty_inventory() {
    let r = SpacerRegistry::new();
    let fit = compute_fit(750_000, &r);
    assert_eq!(fit.counts, Vec::<u64>::new());
    assert_eq!(fit.residual, 750_000);
}

#[test]
fn one_spacer_used_many_times() {
    let mut r = SpacerRegistry::new();
    r.add("eighth", "0.125").unwrap();
    let fit = compute_fit(1_000_000, &r);
    assert_eq!(fit.counts, vec![8]);
    assert_eq!(fit.residual, 0);
    let fit = compute_fit(u64::MAX, &r);
    assert_eq!(fit.counts, vec![u64::MAX / 125_000]);
    assert_eq!(fit.residual, u64::MAX % 125_000);
}

#[test]
fn greedy_is_not_optimal() {
    let mut r = SpacerRegistry::new();
    r.add("big", "0.4").unwrap();
    r.add("small", "0.3").unwrap();
    let fit = compute_fit(600_000, &r);
    assert_eq!(fit.counts, vec![1, 0]);
    assert_eq!(fit.residual, 200_000);
}

#[test]
fn builtin_fit_of_a_full_inch_and_a_bit() {
    let r = SpacerRegistry::builtin();
    let fit = fit_from_text("1.26", &r).unwrap();
    assert_eq!(fit.counts, vec![2, 0, 0, 1, 0, 0, 0, 0, 0, 0, 0]);
    assert_eq!(fit.residual, 10_000);
}

#[test]
fn residual_accounts_for_target_and_is_below_every_enabled_spacer() {
    let mut r = SpacerRegistry::builtin();
    r.toggle_enabled(4);
    r.toggle_enabled(10);
    let targets: [u64; 8] = [0, 1, 21_499, 21_500, 333_333, 800_000, 1_234_567, 98_765_432];
    for target in targets {
        let fit = compute_fit(target, &r);
        assert_eq!(fit.counts.len(), r.len());
        assert_eq!(fit.residual + used(&fit, &r), target);
        for i in 0..r.len() {
            if r.get(i).enabled {
                assert!(fit.residual < r.get(i).thickness);
            } else {
                assert_eq!(fit.counts[i], 0);
            }
        }
    }
}

#[test]
fn disabled_spacer_counts_as_absent() {
    let mut with_disabled = SpacerRegistry::builtin();
    with_disabled.toggle_enabled(2);
    let mut without = SpacerRegistry::builtin();
    without.remove(2);
    let targets: [u64; 5] = [315_000, 640_000, 999_999, 1_000_000, 5_431_000];
    for target in targets {
        let a = compute_fit(target, &with_disabled);
        let b = compute_fit(target, &without);
        assert_eq!(a.counts[2], 0);
        assert_eq!(a.residual, b.residual);
        let mut others = a.counts.clone();
        others.remove(2);
        assert_eq!(others, b.counts);
    }
}

#[test]
fn fit_twice_is_the_same_fit() {
    let r = SpacerRegistry::builtin();
    let a = compute_fit(777_777, &r);
    let b = compute_fit(777_777, &r);
    assert_eq!(a.requested, b.requested);
    assert_eq!(a.counts, b.counts);
    assert_eq!(a.residual, b.residual);
    assert_eq!(r.len(), 11);
    assert_eq!(r.get(0).name, "1/2 Nylon");
}

#[test]
fn breakdown_has_a_line_for_each_used_spacer() {
    let r = nylon_set();
    let fit = fit_from_text("0.8", &r).unwrap();
    assert_eq!(breakdown_lines(&fit, &r), vec!["1 half 0.5", "1 quarter 0.25"]);
    let fit = fit_from_text("0", &r).unwrap();
    assert_eq!(breakdown_lines(&fit, &r), Vec::<String>::new());
}

#[test]
fn entry_text_of_a_fit() {
    let r = nylon_set();
    let fit = fit_from_text("0.8", &r).unwrap();
    assert_eq!(
        format_entry("0.8", &fit, &r),
        "0.8 in\n\tOff by 0.05\n\t1 half 0.5\n\t1 quarter 0.25"
    );
}

#[test]
fn entry_text_keeps_the_target_as_typed() {
    let r = nylon_set();
    let fit = fit_from_text("00.750", &r).unwrap();
    assert_eq!(fit.counts, vec![1, 0, 1, 0]);
    assert_eq!(format_entry("00.750", &fit, &r), "00.750 in\n\tOff by 0\n\t1 half 0.5\n\t1 quarter 0.25");
}

#[test]
fn entry_text_without_breakdown() {
    let r = nylon_set();
    let fit = fit_from_text("0.1", &r).unwrap();
    assert_eq!(format_entry("0.1", &fit, &r), "0.1 in\n\tOff by 0.1");
}

#[test]
fn entry_shows_what_the_breakdown_shows() {
    let r = SpacerRegistry::builtin();
    let fit = fit_from_text("2.4567", &r).unwrap();
    let lines = breakdown_lines(&fit, &r);
    let mut expected = String::from("2.4567 in\n\t");
    expected += &residual_label(&fit);
    for line in &lines {
        expected += "\n\t";
        expected += line;
    }
    assert_eq!(format_entry("2.4567", &fit, &r), expected);
    let mut shown = 0;
    for i in 0..r.len() {
        if fit.counts[i] > 0 {
            let s = r.get(i);
            assert!(lines[shown].starts_with(&format!("{} {} ", fit.counts[i], s.name)));
            shown += 1;
        }
    }
    assert_eq!(shown, lines.len());
}

#[test]
fn log_appends_at_the_end() {
    let mut log = OutputLog::new();
    assert!(log.is_empty());
    assert_eq!(log.len(), 0);
    assert_eq!(log.display_text(), "");
    log.append("first".to_string());
    assert_eq!(log.display_text(), "first");
    log.append("second\n\tline".to_string());
    log.append("".to_string());
    assert!(!log.is_empty());
    assert_eq!(log.len(), 3);
    assert_eq!(log.entry(0), "first");
    assert_eq!(log.entry(1), "second\n\tline");
    assert_eq!(log.entry(2), "");
    assert_eq!(log.display_text(), "first\nsecond\n\tline\n");
}
