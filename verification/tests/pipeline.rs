use lowestbins::aggregate::PriceAggregate;
use lowestbins::classify::classify;
use lowestbins::item::{DisplayInfo, PartialExtraAttr, PartialNbt, PartialNbtElement, PartialTag};
use lowestbins::page::{classify_page, scan_gate, AuctionListing, FailReason, PageResult, RawAuction, RawPage};
use lowestbins::scan::{build_aggregate, process_auction, run_scan, DecodedAuction};
use lowestbins::snapshot::{render_json, SnapshotStore};
use lowestbins::strip::remove_color_codes;

fn item(
    name: &str,
    lore: Vec<&str>,
    id: &str,
    pet: Option<&str>,
    enchantments: Option<Vec<(&str, i32)>>,
) -> PartialNbt {
    PartialNbt {
        i: vec![PartialNbtElement {
            count: 1,
            tag: PartialTag {
                extra_attributes: PartialExtraAttr {
                    id: id.to_string(),
                    pet: pet.map(|p| p.to_string()),
                    enchantments: enchantments
                        .map(|e| e.into_iter().map(|(n, l)| (n.to_string(), l)).collect()),
                    potion: None,
                    potion_level: None,
                    anvil_uses: None,
                    enhanced: None,
                    runes: None,
                },
                display: DisplayInfo {
                    name: name.to_string(),
                    lore: lore.into_iter().map(|l| l.to_string()).collect(),
                },
            },
        }],
    }
}

fn sorted_entries(agg: &PriceAggregate) -> Vec<(String, i64)> {
    let mut e = agg.entries();
    e.sort();
    e
}

#[test]
fn pet_classification() {
    let nbt = item(
        "\u{a7}7[Lvl 1] \u{a7}aWolf",
        vec!["some line", "\u{a7}9RARE"],
        "PET",
        Some("{}"),
        None,
    );
    assert_eq!(classify(&nbt), Some("PET:WOLF:RARE".to_string()));
}

#[test]
fn pet_item_without_two_parts() {
    let nbt = item("\u{a7}aWolf Charm", vec!["\u{a7}9RARE"], "PET_ITEM", Some("{}"), None);
    assert_eq!(classify(&nbt), Some("Wolf Charm".to_string()));
}

#[test]
fn single_enchant_book() {
    let nbt = item(
        "\u{a7}9Enchanted Book",
        vec!["\u{a7}9Sharpness VII"],
        "ENCHANTED_BOOK",
        None,
        Some(vec![("sharpness", 7)]),
    );
    assert_eq!(classify(&nbt), Some("SHARPNESS_VII".to_string()));
}

#[test]
fn book_with_no_enchantments_is_skipped() {
    let none = item("Book", vec!["line"], "ENCHANTED_BOOK", None, None);
    assert_eq!(classify(&none), None);
    let empty = item("Book", vec!["line"], "ENCHANTED_BOOK", None, Some(vec![]));
    assert_eq!(classify(&empty), None);
}

#[test]
fn book_with_two_enchantments_is_skipped() {
    let nbt = item(
        "Book",
        vec!["\u{a7}9Sharpness VII"],
        "ENCHANTED_BOOK",
        None,
        Some(vec![("sharpness", 7), ("smite", 5)]),
    );
    assert_eq!(classify(&nbt), None);
}

#[test]
fn ordinary_item_keeps_its_id_verbatim() {
    let nbt = item("\u{a7}6Sword", vec![], "ASPECT_OF_THE_END", None, None);
    assert_eq!(classify(&nbt), Some("ASPECT_OF_THE_END".to_string()));
}

#[test]
fn item_without_elements_is_skipped() {
    let nbt = PartialNbt { i: vec![] };
    assert_eq!(classify(&nbt), None);
}

#[test]
fn pet_with_empty_lore_is_skipped() {
    let nbt = item("\u{a7}7[Lvl 1] \u{a7}aWolf", vec![], "PET", Some("{}"), None);
    assert_eq!(classify(&nbt), None);
}

#[test]
fn merge_keeps_the_minimum_price() {
    let mut agg = PriceAggregate::new();
    agg.merge("A".to_string(), 10);
    agg.merge("A".to_string(), 5);
    agg.merge("A".to_string(), 7);
    assert_eq!(agg.get(&"A".to_string()), Some(5));
}

#[test]
fn merge_is_order_independent() {
    let obs = [("A", 10i64), ("B", 3), ("A", 5), ("B", 9)];
    let orders: Vec<Vec<usize>> = vec![
        vec![0, 1, 2, 3],
        vec![3, 2, 1, 0],
        vec![2, 0, 3, 1],
        vec![1, 3, 0, 2],
    ];
    let mut results: Vec<Vec<(String, i64)>> = Vec::new();
    for order in orders {
        let mut agg = PriceAggregate::new();
        for k in order {
            let (id, price) = obs[k];
            agg.merge(id.to_string(), price);
        }
        results.push(sorted_entries(&agg));
    }
    for r in &results {
        assert_eq!(r, &results[0]);
        assert_eq!(r, &vec![("A".to_string(), 5), ("B".to_string(), 3)]);
    }
}

#[test]
fn aggregated_price_is_at_most_each_observation() {
    let obs = [("A", 10i64), ("B", 3), ("A", 5), ("C", 8)];
    let mut agg = PriceAggregate::new();
    for (id, price) in obs {
        agg.merge(id.to_string(), price);
    }
    for (id, price) in obs {
        let stored = agg.get(&id.to_string()).unwrap();
        assert!(stored <= price);
    }
}

#[test]
fn non_buy_it_now_listing_is_excluded() {
    let mut agg = PriceAggregate::new();
    let a = DecodedAuction {
        bin: false,
        starting_bid: 1,
        item: Some(item("Sword", vec![], "SWORD", None, None)),
    };
    process_auction(&mut agg, &a);
    assert!(agg.entries().is_empty());
}

#[test]
fn undecodable_listing_is_skipped() {
    let mut agg = PriceAggregate::new();
    let a = DecodedAuction { bin: true, starting_bid: 1, item: None };
    process_auction(&mut agg, &a);
    assert!(agg.entries().is_empty());
}

#[test]
fn upstream_failure_keeps_its_cause() {
    let page = RawPage {
        success: false,
        cause: Some("Invalid API key".to_string()),
        total_pages: None,
        auctions: None,
    };
    match classify_page(&page) {
        PageResult::Failed { reason: FailReason::Upstream(c) } => {
            assert_eq!(c, "Invalid API key");
        }
        _ => panic!("expected an upstream failure"),
    }
}

#[test]
fn body_without_listings_is_malformed() {
    let page = RawPage { success: true, cause: None, total_pages: Some(3), auctions: None };
    assert!(matches!(
        classify_page(&page),
        PageResult::Failed { reason: FailReason::Malformed }
    ));
}

#[test]
fn malformed_listing_is_dropped_from_the_page() {
    let page = RawPage {
        success: true,
        cause: None,
        total_pages: Some(2),
        auctions: Some(vec![
            RawAuction { has_bin: true, starting_bid: Some(4), item_bytes: Some("aa".to_string()) },
            RawAuction { has_bin: true, starting_bid: None, item_bytes: Some("bb".to_string()) },
            RawAuction { has_bin: false, starting_bid: Some(9), item_bytes: None },
        ]),
    };
    match classify_page(&page) {
        PageResult::Fetched { total_pages, listings } => {
            assert_eq!(total_pages, Some(2));
            assert_eq!(listings.len(), 1);
            assert!(listings[0].bin);
            assert_eq!(listings[0].starting_bid, 4);
            assert_eq!(listings[0].item_bytes, "aa");
        }
        _ => panic!("expected a fetched page"),
    }
}

#[test]
fn gate_passes_only_with_a_page_count() {
    let with_count = PageResult::Fetched { total_pages: Some(7), listings: vec![] };
    assert_eq!(scan_gate(&with_count), Some(7));
    let without_count = PageResult::Fetched { total_pages: None, listings: vec![] };
    assert_eq!(scan_gate(&without_count), None);
    let failed = PageResult::Failed { reason: FailReason::Transport };
    assert_eq!(scan_gate(&failed), None);
}

#[test]
fn scan_without_page_count_leaves_the_snapshot_unchanged() {
    let store = SnapshotStore::new();
    let good_page0 = PageResult::Fetched { total_pages: Some(1), listings: vec![] };
    let pages = vec![vec![DecodedAuction {
        bin: true,
        starting_bid: 42,
        item: Some(item("Sword", vec![], "SWORD", None, None)),
    }]];
    let published = run_scan(&store, &good_page0, &pages);
    assert_eq!(published, Some("{\"SWORD\":42}".to_string()));
    let before = store.read();
    assert_eq!(before, "{\"SWORD\":42}");

    let bad_page0 = PageResult::Fetched { total_pages: None, listings: vec![] };
    assert_eq!(run_scan(&store, &bad_page0, &vec![]), None);
    assert_eq!(store.read(), before);
}

#[test]
fn a_fresh_store_serves_an_empty_object() {
    let store = SnapshotStore::new();
    assert_eq!(store.read(), "{}");
}

#[test]
fn scan_aggregates_minimum_across_pages() {
    let store = SnapshotStore::new();
    let page0 = PageResult::Fetched { total_pages: Some(2), listings: vec![] };
    let sword = || Some(item("Sword", vec![], "SWORD", None, None));
    let pages = vec![
        vec![
            DecodedAuction { bin: true, starting_bid: 90, item: sword() },
            DecodedAuction { bin: false, starting_bid: 1, item: sword() },
        ],
        vec![DecodedAuction { bin: true, starting_bid: 60, item: sword() }],
    ];
    assert!(run_scan(&store, &page0, &pages).is_some());
    assert_eq!(store.read(), "{\"SWORD\":60}");
}

#[test]
fn page_order_does_not_change_the_aggregate() {
    let sword = |price: i64| DecodedAuction {
        bin: true,
        starting_bid: price,
        item: Some(item("Sword", vec![], "SWORD", None, None)),
    };
    let rune = |price: i64| DecodedAuction {
        bin: true,
        starting_bid: price,
        item: Some(item("Rune", vec![], "RUNE", None, None)),
    };
    let page_a = vec![sword(90), rune(12)];
    let page_b = vec![sword(60), rune(30)];
    let agg1 = build_aggregate(&vec![page_a.clone(), page_b.clone()]);
    let agg2 = build_aggregate(&vec![page_b, page_a]);
    assert_eq!(sorted_entries(&agg1), sorted_entries(&agg2));
    assert_eq!(
        sorted_entries(&agg1),
        vec![("RUNE".to_string(), 12), ("SWORD".to_string(), 60)]
    );
}

#[test]
fn render_json_formats_entries() {
    let empty: Vec<(String, i64)> = vec![];
    assert_eq!(render_json(&empty), "{}");
    let one = vec![("A".to_string(), 5)];
    assert_eq!(render_json(&one), "{\"A\":5}");
    let two = vec![("A".to_string(), 5), ("B".to_string(), -12)];
    assert_eq!(render_json(&two), "{\"A\":5,\"B\":-12}");
}

#[test]
fn render_json_escapes_keys() {
    let quoted = vec![("a\"b".to_string(), 1)];
    assert_eq!(render_json(&quoted), "{\"a\\\"b\":1}");
    let backslash = vec![("a\\b".to_string(), 2)];
    assert_eq!(render_json(&backslash), "{\"a\\\\b\":2}");
    let control = vec![("a\u{1}b".to_string(), 3)];
    assert_eq!(render_json(&control), "{\"a\\u0001b\":3}");
}

#[test]
fn stripping_removes_markup() {
    assert_eq!(remove_color_codes("\u{a7}9RARE".to_string()), "RARE");
    assert_eq!(remove_color_codes("  \u{a7}7aWolf  ".to_string()), "Wolf");
    assert_eq!(remove_color_codes("\u{a7}1\u{a7}2".to_string()), "");
}

#[test]
fn stripping_leaves_clean_input_unchanged() {
    for s in ["Wolf", "Sharpness VII", "RARE", ""] {
        assert_eq!(remove_color_codes(s.to_string()), s);
        let once = remove_color_codes(s.to_string());
        assert_eq!(remove_color_codes(once.clone()), once);
    }
}
