use cfg_matrix::error::{MatrixError, ParseSite};
use cfg_matrix::flags::FlagSpec;
use cfg_matrix::generator::{
    cfg_matrix, check_flags, check_template, check_variant, check_variants, emit, expand,
    generate, make_variant, Variant,
};
use cfg_matrix::guard::Atom;
use cfg_matrix::template::Template;

fn strings(items: &[&str]) -> Vec<String> {
    items.iter().map(|s| s.to_string()).collect()
}

fn shape() -> Template {
    Template::new("pub trait Shape", strings(&["Sized"]), "{ fn area(&self) -> u32; }")
}

fn flags(n: usize) -> Vec<FlagSpec> {
    let all = [
        ("Debug", "feature = \"debug\""),
        ("Clone", "feature = \"clone\""),
        ("Send", "unix"),
        ("Sync", "target_os = \"linux\""),
        ("Copy", "windows"),
    ];
    all.iter().take(n).map(|(c, p)| FlagSpec::new(c, p)).collect()
}

#[test]
fn n_flags_give_two_to_the_n_variants() {
    for n in 1..=4usize {
        let variants = generate(&shape(), &flags(n)).unwrap();
        assert_eq!(variants.len(), 1 << n);
    }
}

#[test]
fn variants_come_in_ascending_order_of_their_masks() {
    let template = shape();
    let flags = flags(3);
    let variants = generate(&template, &flags).unwrap();
    for (mask, variant) in variants.iter().enumerate() {
        assert_eq!(*variant, make_variant(&template, &flags, mask));
    }
}

#[test]
fn first_variant_is_the_bare_template() {
    let template = shape();
    let variants = generate(&template, &flags(4)).unwrap();
    assert_eq!(variants[0].template, template);
    assert!(variants[0].guard.iter().all(|a| !a.asserted));
    assert_eq!(variants[0].guard.len(), 4);
}

#[test]
fn last_variant_carries_every_capability() {
    let variants = generate(&shape(), &flags(4)).unwrap();
    let last = &variants[15];
    assert_eq!(last.template.extensions, strings(&["Sized", "Debug", "Clone", "Send", "Sync"]));
    assert!(last.guard.iter().all(|a| a.asserted));
    assert_eq!(last.template.identity, "pub trait Shape");
    assert_eq!(last.template.body, "{ fn area(&self) -> u32; }");
}

#[test]
fn every_variant_keeps_the_predicates_in_flag_order() {
    let flags = flags(4);
    for variant in generate(&shape(), &flags).unwrap() {
        let predicates: Vec<&str> = variant.guard.iter().map(|a| a.predicate.as_str()).collect();
        let expected: Vec<&str> = flags.iter().map(|f| f.predicate.as_str()).collect();
        assert_eq!(predicates, expected);
    }
}

#[test]
fn all_guards_of_one_generation_differ() {
    let variants = generate(&shape(), &flags(4)).unwrap();
    for a in 0..variants.len() {
        for b in 0..a {
            assert_ne!(variants[a].guard, variants[b].guard);
        }
    }
}

#[test]
fn make_variant_of_mask_five() {
    let variant = make_variant(&shape(), &flags(4), 0b0101);
    assert_eq!(variant.template.extensions, strings(&["Sized", "Debug", "Send"]));
    let asserted: Vec<bool> = variant.guard.iter().map(|a| a.asserted).collect();
    assert_eq!(asserted, vec![true, false, true, false]);
}

#[test]
fn expand_agrees_with_generate_on_valid_input() {
    let template = shape();
    let flags = flags(2);
    assert_eq!(expand(&template, &flags), generate(&template, &flags).unwrap());
}

#[test]
fn template_is_not_changed_by_a_generation() {
    let template = shape();
    let before = template.duplicate();
    let _ = generate(&template, &flags(4)).unwrap();
    assert_eq!(template, before);
}

#[test]
fn generating_twice_gives_the_same_text() {
    let first = cfg_matrix(&flags(4), &shape()).unwrap();
    let second = cfg_matrix(&flags(4), &shape()).unwrap();
    assert_eq!(first, second);
    assert_eq!(first.as_bytes(), second.as_bytes());
}

#[test]
fn no_flags_are_a_configuration_error() {
    assert_eq!(generate(&shape(), &Vec::new()), Err(MatrixError::Configuration { count: 0 }));
    assert_eq!(cfg_matrix(&Vec::new(), &shape()), Err(MatrixError::Configuration { count: 0 }));
}

#[test]
fn five_flags_are_a_configuration_error() {
    assert_eq!(generate(&shape(), &flags(5)), Err(MatrixError::Configuration { count: 5 }));
    assert_eq!(cfg_matrix(&flags(5), &shape()), Err(MatrixError::Configuration { count: 5 }));
}

#[test]
fn the_count_is_checked_before_the_syntax() {
    let mut many = flags(5);
    many[0].capability = "(".to_string();
    let broken = Template::new("not a trait", Vec::new(), "");
    assert_eq!(generate(&broken, &many), Err(MatrixError::Configuration { count: 5 }));
}

#[test]
fn a_malformed_template_is_a_parse_error() {
    let broken = Template::new("struct Shape", Vec::new(), "{}");
    assert_eq!(
        generate(&broken, &flags(1)),
        Err(MatrixError::Parse { site: ParseSite::Template })
    );
    assert_eq!(check_template(&broken), Err(MatrixError::Parse { site: ParseSite::Template }));
    assert_eq!(check_template(&shape()), Ok(()));
}

#[test]
fn the_template_is_checked_before_the_flags() {
    let broken = Template::new("trait", Vec::new(), "{}");
    let mut bad = flags(2);
    bad[0].predicate = "=".to_string();
    assert_eq!(generate(&broken, &bad), Err(MatrixError::Parse { site: ParseSite::Template }));
}

#[test]
fn a_malformed_capability_is_a_parse_error_at_its_flag() {
    let mut bad = flags(3);
    bad[1].capability = "Debug +".to_string();
    assert_eq!(
        generate(&shape(), &bad),
        Err(MatrixError::Parse { site: ParseSite::Capability(1) })
    );
    assert_eq!(check_flags(&bad), Err(MatrixError::Parse { site: ParseSite::Capability(1) }));
}

#[test]
fn a_malformed_predicate_is_a_parse_error_at_its_flag() {
    let mut bad = flags(3);
    bad[2].predicate = "feature =".to_string();
    assert_eq!(
        generate(&shape(), &bad),
        Err(MatrixError::Parse { site: ParseSite::Predicate(2) })
    );
    assert_eq!(check_flags(&bad), Err(MatrixError::Parse { site: ParseSite::Predicate(2) }));
}

#[test]
fn the_first_malformed_flag_is_the_one_reported() {
    let mut bad = flags(4);
    bad[3].capability = "".to_string();
    bad[1].predicate = "1 + 1".to_string();
    assert_eq!(check_flags(&bad), Err(MatrixError::Parse { site: ParseSite::Predicate(1) }));
}

#[test]
fn the_capability_of_a_flag_is_checked_before_its_predicate() {
    let bad = vec![FlagSpec::new("", "")];
    assert_eq!(check_flags(&bad), Err(MatrixError::Parse { site: ParseSite::Capability(0) }));
}

#[test]
fn two_capabilities_in_one_flag_are_malformed() {
    let bad = vec![FlagSpec::new("Debug + Clone", "unix")];
    assert_eq!(check_flags(&bad), Err(MatrixError::Parse { site: ParseSite::Capability(0) }));
}

#[test]
fn trailing_tokens_after_a_predicate_are_malformed() {
    let bad = vec![FlagSpec::new("Debug", "unix windows")];
    assert_eq!(check_flags(&bad), Err(MatrixError::Parse { site: ParseSite::Predicate(0) }));
}

#[test]
fn well_formed_flags_pass() {
    assert_eq!(check_flags(&flags(5)), Ok(()));
    assert_eq!(check_flags(&Vec::new()), Ok(()));
    let odd = vec![
        FlagSpec::new("?Sized", "all(unix, not(feature = \"x\"))"),
        FlagSpec::new("'static", "any()"),
        FlagSpec::new("for<'a> Fn(&'a u8) -> u8", "target_pointer_width = \"64\""),
        FlagSpec::new("std::fmt::Debug", "debug_assertions"),
    ];
    assert_eq!(check_flags(&odd), Ok(()));
}

#[test]
fn a_variant_that_comes_out_malformed_is_an_internal_error() {
    let template = Template::new("trait T where Self: Sized", Vec::new(), "{}");
    assert_eq!(check_template(&template), Ok(()));
    assert_eq!(check_flags(&flags(2)), Ok(()));
    assert_eq!(generate(&template, &flags(2)).unwrap().len(), 4);
    assert_eq!(
        cfg_matrix(&flags(2), &template),
        Err(MatrixError::InternalInvariant { mask: 1 })
    );
}

#[test]
fn a_bound_that_may_not_stand_among_supertraits_is_an_internal_error() {
    let template = Template::new("trait T<'a>", Vec::new(), "{}");
    let capture = vec![FlagSpec::new("use<'a>", "unix")];
    assert_eq!(check_template(&template), Ok(()));
    assert_eq!(check_flags(&capture), Ok(()));
    let variants = generate(&template, &capture).unwrap();
    assert_eq!(variants.len(), 2);
    assert!(check_variant(&variants[0]));
    assert!(!check_variant(&variants[1]));
    assert_eq!(check_variants(&variants), Err(MatrixError::InternalInvariant { mask: 1 }));
    assert_eq!(
        cfg_matrix(&capture, &template),
        Err(MatrixError::InternalInvariant { mask: 1 })
    );
}

#[test]
fn accepted_input_always_gives_every_variant() {
    for n in 1..=4usize {
        let template = shape();
        let flags = flags(n);
        assert_eq!(check_template(&template), Ok(()));
        assert_eq!(check_flags(&flags), Ok(()));
        let variants = generate(&template, &flags).unwrap();
        assert_eq!(variants.len(), [2, 4, 8, 16][n - 1]);
        let text = cfg_matrix(&flags, &template).unwrap();
        assert_eq!(text.lines().count(), 2 * variants.len());
        assert_eq!(text, emit(&variants));
    }
}

#[test]
fn a_text_is_read_the_same_way_wherever_it_is_read() {
    let literal = vec![FlagSpec::new("Send", "name = c\"x\"")];
    assert_eq!(check_flags(&literal), Ok(()));
    assert_eq!(check_flags(&literal), Ok(()));
    let two_tokens = vec![FlagSpec::new("Send", "name = c \"x\"")];
    assert_eq!(
        check_flags(&two_tokens),
        Err(MatrixError::Parse { site: ParseSite::Predicate(0) })
    );
}

#[test]
fn check_variant_looks_at_every_atom_and_at_the_definition() {
    let good = Variant {
        guard: vec![Atom { predicate: "unix".to_string(), asserted: false }],
        template: shape(),
    };
    assert!(check_variant(&good));
    let bad_atom = Variant {
        guard: vec![
            Atom { predicate: "unix".to_string(), asserted: true },
            Atom { predicate: "a) , (b".to_string(), asserted: false },
        ],
        template: shape(),
    };
    assert!(!check_variant(&bad_atom));
    let bad_definition = Variant {
        guard: Vec::new(),
        template: Template::new("pub trait Shape", strings(&["="]), "{}"),
    };
    assert!(!check_variant(&bad_definition));
}

#[test]
fn check_variants_names_the_first_unsound_one() {
    let good = Variant { guard: Vec::new(), template: shape() };
    let bad = Variant { guard: Vec::new(), template: Template::new("", Vec::new(), "") };
    assert_eq!(check_variants(&Vec::new()), Ok(()));
    assert_eq!(check_variants(&vec![good.clone(), good.clone()]), Ok(()));
    assert_eq!(
        check_variants(&vec![good.clone(), good.clone(), bad.clone(), bad]),
        Err(MatrixError::InternalInvariant { mask: 2 })
    );
}

#[test]
fn emit_writes_one_variant_after_another() {
    let variants = vec![
        Variant {
            guard: vec![Atom { predicate: "unix".to_string(), asserted: false }],
            template: Template::new("trait T", Vec::new(), "{}"),
        },
        Variant {
            guard: vec![Atom { predicate: "unix".to_string(), asserted: true }],
            template: Template::new("trait T", strings(&["Send"]), "{}"),
        },
    ];
    assert_eq!(variants[1].render(), "#[cfg(all(unix))]\ntrait T: Send {}");
    assert_eq!(
        emit(&variants),
        "#[cfg(all(not(unix)))]\ntrait T {}\n#[cfg(all(unix))]\ntrait T: Send {}"
    );
    assert_eq!(emit(&Vec::new()), "");
}

#[test]
fn the_emitted_text_is_a_file_of_guarded_traits() {
    let text = cfg_matrix(&flags(3), &shape()).unwrap();
    let file = syn::parse_file(&text).unwrap();
    assert_eq!(file.items.len(), 8);
    for (mask, item) in file.items.iter().enumerate() {
        match item {
            syn::Item::Trait(definition) => {
                assert_eq!(definition.ident.to_string(), "Shape");
                assert_eq!(definition.attrs.len(), 1);
                assert!(definition.attrs[0].path().is_ident("cfg"));
                assert_eq!(definition.supertraits.len(), 1 + mask.count_ones() as usize);
                assert_eq!(definition.items.len(), 1);
            }
            _ => panic!("variant {} is no trait", mask),
        }
    }
}
