use hvm_bench::discover::{discover_revisions, has_input_extension};

fn extension(name: &str) -> Option<&str> {
    std::path::Path::new(name).extension().and_then(|e| e.to_str())
}

#[test]
fn input_files_end_with_their_extension() {
    for name in ["a.hvmc", "a.b.hvmc", "..hvmc", "a .hvmc", "ä.hvmc"] {
        assert!(has_input_extension(name), "{:?}", name);
        assert_eq!(extension(name), Some("hvmc"), "{:?}", name);
    }
    for name in ["", "hvmc", ".hvmc", "a.hvm", "a.hvmc ", "a.HVMC", "a.hvmc.bak", "ahvmc", "a.hvmcx", "a."] {
        assert!(!has_input_extension(name), "{:?}", name);
        assert_ne!(extension(name), Some("hvmc"), "{:?}", name);
    }
}

#[test]
fn revisions_are_ordered_by_their_number() {
    let listing = "compare-10-last\ncompare-2-middle\nrelease-1\ncompare-1-first\n\ncompare-+3-x\n";
    assert_eq!(
        discover_revisions(listing),
        Some(vec![
            "compare-1-first".to_owned(),
            "compare-2-middle".to_owned(),
            "compare-+3-x".to_owned(),
            "compare-10-last".to_owned(),
        ])
    );
}

#[test]
fn revisions_of_one_number_keep_their_order() {
    let listing = "compare-2-b\ncompare-1-z\ncompare-2-a\ncompare-01-y\ncompare-2-\ncompare-1-x";
    assert_eq!(
        discover_revisions(listing),
        Some(vec![
            "compare-1-z".to_owned(),
            "compare-01-y".to_owned(),
            "compare-1-x".to_owned(),
            "compare-2-b".to_owned(),
            "compare-2-a".to_owned(),
            "compare-2-".to_owned(),
        ])
    );
}

#[test]
fn a_listing_without_such_tags_names_no_revision() {
    assert_eq!(discover_revisions(""), Some(vec![]));
    assert_eq!(discover_revisions("v1\nv2\n"), Some(vec![]));
    assert_eq!(discover_revisions(" compare-1-a\nCompare-1-a\ncompare_1-a\n"), Some(vec![]));
}

#[test]
fn a_tag_without_a_number_spoils_the_listing() {
    for bad in ["compare-", "compare-1", "compare--1", "compare-x-1", "compare-1x-a", "compare- 1-a",
        "compare-1.5-a", "compare-99999999999999999999999999-a", "compare-1-a\r\ncompare-2"]
    {
        let listing = format!("compare-1-a\n{}\ncompare-2-b\n", bad);
        assert_eq!(discover_revisions(&listing), None, "{:?}", bad);
    }
}

#[test]
fn the_order_is_that_of_a_stable_sort() {
    let mut seed: u64 = 7;
    for round in 0..50 {
        let mut tags = Vec::new();
        for i in 0..(round % 17) {
            seed = seed.wrapping_mul(6364136223846793005).wrapping_add(1442695040888963407);
            tags.push(format!("compare-{}-{}", (seed >> 33) % 5, i));
        }
        let mut wanted = tags.clone();
        wanted.sort_by_key(|t| t["compare-".len()..].split_once('-').unwrap().0.parse::<usize>().unwrap());
        assert_eq!(discover_revisions(&tags.join("\n")), Some(wanted));
    }
}
