use spacing_calculator::registry::{RegistryError, Spacer, SpacerRegistry};

fn thicknesses(r: &SpacerRegistry) -> Vec<u64> {
    let mut v = Vec::new();
    for i in 0..r.len() {
        v.push(r.get(i).thickness);
    }
    v
}

fn names(r: &SpacerRegistry) -> Vec<String> {
    let mut v = Vec::new();
    for i in 0..r.len() {
        v.push(r.get(i).name.clone());
    }
    v
}

fn sorted_pairs(r: &SpacerRegistry) -> Vec<(u64, String, bool)> {
    let mut v = Vec::new();
    for i in 0..r.len() {
        let s = r.get(i);
        v.push((s.thickness, s.name.clone(), s.enabled));
    }
    v.sort();
    v
}

#[test]
fn new_inventory_is_empty() {
    let r = SpacerRegistry::new();
    assert_eq!(r.len(), 0);
}

#[test]
fn builtin_inventory_lists_eleven_thickest_first() {
    let r = SpacerRegistry::builtin();
    assert_eq!(r.len(), 11);
    assert_eq!(
        thicknesses(&r),
        vec![500_000, 375_000, 315_000, 250_000, 181_000, 125_000, 62_500, 39_200, 31_250, 31_250, 21_500]
    );
    assert_eq!(
        names(&r),
        vec![
            "1/2 Nylon",
            "3/8 Nylon",
            "Large Black",
            "1/4 Nylon",
            "Small Black",
            "1/8 Nylon",
            "Thick Teflon",
            "Thick Steel",
            "Black Steel",
            "Thin Teflon",
            "Thin Steel"
        ]
    );
    for i in 0..r.len() {
        assert!(r.get(i).enabled);
    }
}

#[test]
fn add_keeps_thickest_first() {
    let mut r = SpacerRegistry::new();
    assert_eq!(r.add("quarter", "0.25"), Ok(0));
    assert_eq!(r.add("half", "0.5"), Ok(0));
    assert_eq!(r.add("eighth", "0.125"), Ok(2));
    assert_eq!(r.add("three eighths", "0.375"), Ok(1));
    assert_eq!(thicknesses(&r), vec![500_000, 375_000, 250_000, 125_000]);
    assert_eq!(names(&r), vec!["half", "three eighths", "quarter", "eighth"]);
    assert!(r.get(1).enabled);
}

#[test]
fn add_puts_equal_thickness_behind() {
    let mut r = SpacerRegistry::new();
    assert_eq!(r.add("first", "0.25"), Ok(0));
    assert_eq!(r.add("second", "0.25"), Ok(1));
    assert_eq!(names(&r), vec!["first", "second"]);
}

#[test]
fn add_accepts_any_name() {
    let mut r = SpacerRegistry::new();
    assert_eq!(r.add("", "1"), Ok(0));
    assert_eq!(r.add("", "1"), Ok(1));
    assert_eq!(r.len(), 2);
    assert_eq!(r.get(0).name, "");
}

#[test]
fn add_rejects_negative_thickness() {
    let mut r = SpacerRegistry::builtin();
    let before = sorted_pairs(&r);
    assert_eq!(r.add("bad", "-1"), Err(RegistryError::InvalidThickness));
    assert_eq!(r.len(), 11);
    assert_eq!(sorted_pairs(&r), before);
}

#[test]
fn add_rejects_zero_and_unreadable_thickness() {
    let mut r = SpacerRegistry::new();
    assert_eq!(r.add("zero", "0"), Err(RegistryError::InvalidThickness));
    assert_eq!(r.add("zero", "0.000"), Err(RegistryError::InvalidThickness));
    assert_eq!(r.add("none", ""), Err(RegistryError::InvalidThickness));
    assert_eq!(r.add("word", "thick"), Err(RegistryError::InvalidThickness));
    assert_eq!(r.len(), 0);
}

#[test]
fn remove_returns_the_spacer_and_keeps_order() {
    let mut r = SpacerRegistry::builtin();
    let gone = r.remove(2);
    assert_eq!(gone.name, "Large Black");
    assert_eq!(gone.thickness, 315_000);
    assert_eq!(r.len(), 10);
    assert_eq!(
        thicknesses(&r),
        vec![500_000, 375_000, 250_000, 181_000, 125_000, 62_500, 39_200, 31_250, 31_250, 21_500]
    );
}

#[test]
fn remove_last_and_only() {
    let mut r = SpacerRegistry::new();
    r.add("only", "2").unwrap();
    let gone = r.remove(0);
    assert_eq!(gone.thickness, 2_000_000);
    assert_eq!(r.len(), 0);
}

#[test]
fn add_then_remove_restores_inventory() {
    let mut r = SpacerRegistry::builtin();
    let before = sorted_pairs(&r);
    let order_before = thicknesses(&r);
    let pos = r.add("extra", "0.2").unwrap();
    assert_eq!(pos, 4);
    assert_eq!(r.get(pos).name, "extra");
    let gone = r.remove(pos);
    assert_eq!(gone.name, "extra");
    assert_eq!(sorted_pairs(&r), before);
    assert_eq!(thicknesses(&r), order_before);
}

#[test]
fn update_thickness_waits_for_resort() {
    let mut r = SpacerRegistry::new();
    r.add("a", "0.5").unwrap();
    r.add("b", "0.25").unwrap();
    r.add("c", "0.125").unwrap();
    assert_eq!(r.update_thickness(2, "0.75"), Ok(()));
    assert_eq!(thicknesses(&r), vec![500_000, 250_000, 750_000]);
    assert_eq!(names(&r), vec!["a", "b", "c"]);
    r.resort();
    assert_eq!(thicknesses(&r), vec![750_000, 500_000, 250_000]);
    assert_eq!(names(&r), vec!["c", "a", "b"]);
}

#[test]
fn update_thickness_ignores_bad_text() {
    let mut r = SpacerRegistry::new();
    r.add("a", "0.5").unwrap();
    assert_eq!(r.update_thickness(0, "0.5x"), Err(RegistryError::InvalidThickness));
    assert_eq!(r.update_thickness(0, "0"), Err(RegistryError::InvalidThickness));
    assert_eq!(r.update_thickness(0, "-2"), Err(RegistryError::InvalidThickness));
    assert_eq!(r.get(0).thickness, 500_000);
    assert_eq!(r.get(0).name, "a");
}

#[test]
fn resort_leaves_ordered_inventory_alone() {
    let mut r = SpacerRegistry::builtin();
    let before = names(&r);
    r.resort();
    assert_eq!(names(&r), before);
}

#[test]
fn rename_changes_only_the_name() {
    let mut r = SpacerRegistry::builtin();
    r.rename(3, "Quarter");
    assert_eq!(r.get(3).name, "Quarter");
    assert_eq!(r.get(3).thickness, 250_000);
    assert!(r.get(3).enabled);
    assert_eq!(r.get(2).name, "Large Black");
    assert_eq!(r.len(), 11);
}

#[test]
fn toggle_flips_and_flips_back() {
    let mut r = SpacerRegistry::builtin();
    r.toggle_enabled(0);
    assert!(!r.get(0).enabled);
    assert!(r.get(1).enabled);
    assert_eq!(r.get(0).name, "1/2 Nylon");
    assert_eq!(r.get(0).thickness, 500_000);
    r.toggle_enabled(0);
    assert!(r.get(0).enabled);
}

#[test]
fn from_spacers_orders_the_list() {
    let list = vec![
        Spacer { name: "thin".to_string(), thickness: 10, enabled: false },
        Spacer { name: "thick".to_string(), thickness: 30, enabled: true },
        Spacer { name: "middle".to_string(), thickness: 20, enabled: true },
    ];
    let r = match SpacerRegistry::from_spacers(list) {
        Ok(r) => r,
        Err(_) => panic!("a list of positive thicknesses was refused"),
    };
    assert_eq!(names(&r), vec!["thick", "middle", "thin"]);
    assert!(!r.get(2).enabled);
}

#[test]
fn from_spacers_refuses_zero_thickness() {
    let list = vec![
        Spacer { name: "ok".to_string(), thickness: 10, enabled: true },
        Spacer { name: "flat".to_string(), thickness: 0, enabled: true },
    ];
    match SpacerRegistry::from_spacers(list) {
        Ok(_) => panic!("a spacer of thickness zero was accepted"),
        Err(back) => {
            assert_eq!(back.len(), 2);
            assert_eq!(back[0].name, "ok");
            assert_eq!(back[1].name, "flat");
        }
    }
}
