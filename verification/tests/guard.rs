use cfg_matrix::flags::FlagSpec;
use cfg_matrix::guard::{build_guard, render_guard, Atom};

fn four_flags() -> Vec<FlagSpec> {
    vec![
        FlagSpec::new("A", "a"),
        FlagSpec::new("B", "b"),
        FlagSpec::new("C", "c"),
        FlagSpec::new("D", "d"),
    ]
}

fn atom(predicate: &str, asserted: bool) -> Atom {
    Atom { predicate: predicate.to_string(), asserted }
}

#[test]
fn guard_has_one_atom_per_flag_in_flag_order() {
    let guard = build_guard(0b0110, &four_flags());
    assert_eq!(
        guard,
        vec![atom("a", false), atom("b", true), atom("c", true), atom("d", false)]
    );
}

#[test]
fn guard_of_mask_zero_denies_every_predicate() {
    let guard = build_guard(0, &four_flags());
    assert_eq!(guard.len(), 4);
    assert!(guard.iter().all(|a| !a.asserted));
    assert_eq!(render_guard(&guard), "#[cfg(all(not(a), not(b), not(c), not(d)))]");
}

#[test]
fn guard_of_full_mask_states_every_predicate() {
    let guard = build_guard(15, &four_flags());
    assert_eq!(guard.len(), 4);
    assert!(guard.iter().all(|a| a.asserted));
    assert_eq!(render_guard(&guard), "#[cfg(all(a, b, c, d))]");
}

#[test]
fn guard_ignores_bits_beyond_the_flags() {
    let flags = vec![FlagSpec::new("A", "a")];
    assert_eq!(build_guard(0b10, &flags), vec![atom("a", false)]);
    assert_eq!(build_guard(0b11, &flags), vec![atom("a", true)]);
}

#[test]
fn guard_over_no_flags_is_empty() {
    let guard = build_guard(3, &Vec::new());
    assert!(guard.is_empty());
    assert_eq!(render_guard(&guard), "#[cfg(all())]");
}

#[test]
fn atom_text_wraps_a_denied_predicate() {
    assert_eq!(atom("feature = \"x\"", true).render(), "feature = \"x\"");
    assert_eq!(atom("feature = \"x\"", false).render(), "not(feature = \"x\")");
}

#[test]
fn guards_of_different_masks_differ() {
    let flags = four_flags();
    for a in 0..16usize {
        for b in 0..16usize {
            if a != b {
                assert_ne!(build_guard(a, &flags), build_guard(b, &flags));
                assert_ne!(
                    render_guard(&build_guard(a, &flags)),
                    render_guard(&build_guard(b, &flags))
                );
            }
        }
    }
}

#[test]
fn guards_differ_even_where_predicates_repeat() {
    let flags = vec![FlagSpec::new("A", "p"), FlagSpec::new("B", "p")];
    for a in 0..4usize {
        for b in 0..4usize {
            if a != b {
                assert_ne!(build_guard(a, &flags), build_guard(b, &flags));
            }
        }
    }
}

#[test]
fn exactly_one_guard_holds_for_each_assignment() {
    let flags = vec![FlagSpec::new("A", "a"), FlagSpec::new("B", "b"), FlagSpec::new("C", "c")];
    for assignment in 0..8usize {
        let truth: Vec<bool> = (0..3).map(|j| (assignment >> j) & 1 == 1).collect();
        let mut holding = Vec::new();
        for mask in 0..8usize {
            let guard = build_guard(mask, &flags);
            if guard.iter().zip(truth.iter()).all(|(atom, value)| atom.asserted == *value) {
                holding.push(mask);
            }
        }
        assert_eq!(holding, vec![assignment]);
    }
}
