use location_routing::constraints::cart_fulfillment_constraints_generate_run;
use location_routing::gid::{extract_numeric_id_from_gid, parse_u64};
use location_routing::model::{
    Attribute, Cart, CartFulfillmentConstraintsGenerateRunResult,
    CartFulfillmentGroupsLocationRankingsGenerateRunResult, CartLine,
    DeliverableLinesMustFulfillFromSameLocationAddOperation, FulfillmentGroup,
    FulfillmentGroupLocationRankingAddOperation, Location, Operation, RankedLocation,
};
use location_routing::rankings::cart_fulfillment_groups_location_rankings_generate_run;

fn loc(id: &str, handle: &str) -> Location {
    Location { id: id.to_string(), handle: handle.to_string() }
}

fn plain_line(id: &str) -> CartLine {
    CartLine { id: id.to_string(), attribute: None }
}

fn tagged_line(id: &str, key: &str, value: Option<&str>) -> CartLine {
    CartLine {
        id: id.to_string(),
        attribute: Some(Attribute {
            key: key.to_string(),
            value: value.map(|v| v.to_string()),
        }),
    }
}

fn ranked(handle: &str, rank: i64) -> RankedLocation {
    RankedLocation { location_handle: handle.to_string(), rank }
}

#[test]
fn test_no_location_properties() {
    let cart = Cart {
        deliverable_lines: vec![
            plain_line("gid://shopify/CartLine/1"),
            plain_line("gid://shopify/CartLine/2"),
        ],
    };
    let locations = vec![loc("gid://shopify/Location/108050547019", "108050547019")];
    let result = cart_fulfillment_constraints_generate_run(&cart, &locations);
    let expected = CartFulfillmentConstraintsGenerateRunResult { operations: vec![] };
    assert_eq!(result, expected);
}

#[test]
fn test_force_location_constraint() {
    let cart = Cart {
        deliverable_lines: vec![
            tagged_line("gid://shopify/CartLine/1", "_Location ID", Some("108050547019")),
            tagged_line("gid://shopify/CartLine/2", "_Location ID", Some("108050547019")),
        ],
    };
    let locations = vec![
        loc("gid://shopify/Location/108050547019", "108050547019"),
        loc("gid://shopify/Location/108050645323", "108050645323"),
    ];
    let result = cart_fulfillment_constraints_generate_run(&cart, &locations);
    assert_eq!(result.operations.len(), 1);
}

#[test]
fn test_no_location_preference() {
    let groups = vec![FulfillmentGroup {
        handle: "123".to_string(),
        inventory_location_handles: vec![
            "location_handle_1".to_string(),
            "location_handle_2".to_string(),
        ],
        lines: vec![plain_line("gid://shopify/CartLine/1")],
    }];
    let locations = vec![
        loc("gid://shopify/Location/99997811016", "location_handle_1"),
        loc("gid://shopify/Location/99997811017", "location_handle_2"),
    ];
    let result = cart_fulfillment_groups_location_rankings_generate_run(&groups, &locations);
    let expected = CartFulfillmentGroupsLocationRankingsGenerateRunResult {
        operations: vec![Operation::FulfillmentGroupLocationRankingAdd(
            FulfillmentGroupLocationRankingAddOperation {
                fulfillment_group_handle: "123".to_string(),
                rankings: vec![ranked("location_handle_1", 0), ranked("location_handle_2", 0)],
            },
        )],
    };
    assert_eq!(result, expected);
}

#[test]
fn test_location_preference_from_line_item_property() {
    let groups = vec![FulfillmentGroup {
        handle: "123".to_string(),
        inventory_location_handles: vec![
            "location_handle_1".to_string(),
            "location_handle_2".to_string(),
        ],
        lines: vec![tagged_line(
            "gid://shopify/CartLine/1",
            "_Location ID",
            Some("99997811016"),
        )],
    }];
    let locations = vec![
        loc("gid://shopify/Location/99997811016", "location_handle_1"),
        loc("gid://shopify/Location/99997811017", "location_handle_2"),
    ];
    let result = cart_fulfillment_groups_location_rankings_generate_run(&groups, &locations);
    let expected = CartFulfillmentGroupsLocationRankingsGenerateRunResult {
        operations: vec![Operation::FulfillmentGroupLocationRankingAdd(
            FulfillmentGroupLocationRankingAddOperation {
                fulfillment_group_handle: "123".to_string(),
                rankings: vec![ranked("location_handle_1", 0), ranked("location_handle_2", 1)],
            },
        )],
    };
    assert_eq!(result, expected);
}

#[test]
fn test_extract_numeric_id_from_gid() {
    assert_eq!(
        extract_numeric_id_from_gid("gid://shopify/Location/99997811016"),
        Some(99997811016)
    );
    assert_eq!(extract_numeric_id_from_gid("gid://shopify/Location/123"), Some(123));
    assert_eq!(extract_numeric_id_from_gid("invalid"), None);
    assert_eq!(extract_numeric_id_from_gid("gid://shopify/Location/abc"), None);
}

#[test]
fn force_location_constraint_lists_both_line_ids() {
    let cart = Cart {
        deliverable_lines: vec![
            tagged_line("gid://shopify/CartLine/1", "_Location ID", Some("108050547019")),
            tagged_line("gid://shopify/CartLine/2", "_Location ID", Some("108050547019")),
        ],
    };
    let locations = vec![loc("gid://shopify/Location/108050547019", "108050547019")];
    let result = cart_fulfillment_constraints_generate_run(&cart, &locations);
    let expected = CartFulfillmentConstraintsGenerateRunResult {
        operations: vec![Operation::DeliverableLinesMustFulfillFromSameLocationAdd(
            DeliverableLinesMustFulfillFromSameLocationAddOperation {
                deliverable_line_ids: Some(vec![
                    "gid://shopify/CartLine/1".to_string(),
                    "gid://shopify/CartLine/2".to_string(),
                ]),
            },
        )],
    };
    assert_eq!(result, expected);
}

#[test]
fn constraint_groups_follow_first_seen_order() {
    let cart = Cart {
        deliverable_lines: vec![
            tagged_line("gid://shopify/CartLine/1", "_Location ID", Some("20")),
            tagged_line("gid://shopify/CartLine/2", "_Location ID", Some("10")),
            tagged_line("gid://shopify/CartLine/3", "_Location ID", Some("20")),
        ],
    };
    let locations = vec![
        loc("gid://shopify/Location/10", "north"),
        loc("gid://shopify/Location/20", "south"),
    ];
    let result = cart_fulfillment_constraints_generate_run(&cart, &locations);
    let expected = CartFulfillmentConstraintsGenerateRunResult {
        operations: vec![
            Operation::DeliverableLinesMustFulfillFromSameLocationAdd(
                DeliverableLinesMustFulfillFromSameLocationAddOperation {
                    deliverable_line_ids: Some(vec![
                        "gid://shopify/CartLine/1".to_string(),
                        "gid://shopify/CartLine/3".to_string(),
                    ]),
                },
            ),
            Operation::DeliverableLinesMustFulfillFromSameLocationAdd(
                DeliverableLinesMustFulfillFromSameLocationAddOperation {
                    deliverable_line_ids: Some(vec!["gid://shopify/CartLine/2".to_string()]),
                },
            ),
        ],
    };
    assert_eq!(result, expected);
}

#[test]
fn unmapped_location_id_forms_no_group() {
    let cart = Cart {
        deliverable_lines: vec![tagged_line(
            "gid://shopify/CartLine/1",
            "_Location ID",
            Some("999"),
        )],
    };
    let locations = vec![loc("gid://shopify/Location/10", "north")];
    let result = cart_fulfillment_constraints_generate_run(&cart, &locations);
    assert_eq!(result.operations.len(), 0);
}

#[test]
fn non_numeric_value_forms_no_group() {
    let cart = Cart {
        deliverable_lines: vec![
            tagged_line("gid://shopify/CartLine/1", "_Location ID", Some("abc")),
            tagged_line("gid://shopify/CartLine/2", "_Location ID", None),
        ],
    };
    let locations = vec![loc("gid://shopify/Location/10", "north")];
    let result = cart_fulfillment_constraints_generate_run(&cart, &locations);
    assert_eq!(result.operations.len(), 0);
}

#[test]
fn other_attribute_key_forms_no_group() {
    let cart = Cart {
        deliverable_lines: vec![tagged_line("gid://shopify/CartLine/1", "Location ID", Some("10"))],
    };
    let locations = vec![loc("gid://shopify/Location/10", "north")];
    let result = cart_fulfillment_constraints_generate_run(&cart, &locations);
    assert_eq!(result.operations.len(), 0);
}

#[test]
fn numeric_handle_resolves_without_numeric_suffix() {
    let cart = Cart {
        deliverable_lines: vec![tagged_line("gid://shopify/CartLine/1", "_Location ID", Some("77"))],
    };
    let locations = vec![loc("invalid", "77")];
    let result = cart_fulfillment_constraints_generate_run(&cart, &locations);
    let expected = CartFulfillmentConstraintsGenerateRunResult {
        operations: vec![Operation::DeliverableLinesMustFulfillFromSameLocationAdd(
            DeliverableLinesMustFulfillFromSameLocationAddOperation {
                deliverable_line_ids: Some(vec!["gid://shopify/CartLine/1".to_string()]),
            },
        )],
    };
    assert_eq!(result, expected);
}

#[test]
fn later_insertion_wins_on_key_collision() {
    // The second location's handle parses as 5 and displaces the first
    // location's numeric-suffix entry for that key.
    let groups = vec![FulfillmentGroup {
        handle: "g".to_string(),
        inventory_location_handles: vec!["alpha".to_string(), "5".to_string()],
        lines: vec![tagged_line("gid://shopify/CartLine/1", "_Location ID", Some("5"))],
    }];
    let locations = vec![
        loc("gid://shopify/Location/5", "alpha"),
        loc("gid://shopify/Location/9", "5"),
    ];
    let result = cart_fulfillment_groups_location_rankings_generate_run(&groups, &locations);
    let expected = CartFulfillmentGroupsLocationRankingsGenerateRunResult {
        operations: vec![Operation::FulfillmentGroupLocationRankingAdd(
            FulfillmentGroupLocationRankingAddOperation {
                fulfillment_group_handle: "g".to_string(),
                rankings: vec![ranked("alpha", 1), ranked("5", 0)],
            },
        )],
    };
    assert_eq!(result, expected);
}

#[test]
fn first_resolvable_line_wins_within_group() {
    let groups = vec![FulfillmentGroup {
        handle: "g".to_string(),
        inventory_location_handles: vec!["north".to_string(), "south".to_string()],
        lines: vec![
            tagged_line("gid://shopify/CartLine/1", "_Location ID", Some("nonsense")),
            tagged_line("gid://shopify/CartLine/2", "_Location ID", Some("20")),
            tagged_line("gid://shopify/CartLine/3", "_Location ID", Some("10")),
        ],
    }];
    let locations = vec![
        loc("gid://shopify/Location/10", "north"),
        loc("gid://shopify/Location/20", "south"),
    ];
    let result = cart_fulfillment_groups_location_rankings_generate_run(&groups, &locations);
    let expected = CartFulfillmentGroupsLocationRankingsGenerateRunResult {
        operations: vec![Operation::FulfillmentGroupLocationRankingAdd(
            FulfillmentGroupLocationRankingAddOperation {
                fulfillment_group_handle: "g".to_string(),
                rankings: vec![ranked("north", 1), ranked("south", 0)],
            },
        )],
    };
    assert_eq!(result, expected);
}

#[test]
fn every_group_gets_one_operation_in_order() {
    let groups = vec![
        FulfillmentGroup {
            handle: "first".to_string(),
            inventory_location_handles: vec![],
            lines: vec![],
        },
        FulfillmentGroup {
            handle: "second".to_string(),
            inventory_location_handles: vec!["north".to_string()],
            lines: vec![],
        },
    ];
    let locations = vec![loc("gid://shopify/Location/10", "north")];
    let result = cart_fulfillment_groups_location_rankings_generate_run(&groups, &locations);
    let expected = CartFulfillmentGroupsLocationRankingsGenerateRunResult {
        operations: vec![
            Operation::FulfillmentGroupLocationRankingAdd(
                FulfillmentGroupLocationRankingAddOperation {
                    fulfillment_group_handle: "first".to_string(),
                    rankings: vec![],
                },
            ),
            Operation::FulfillmentGroupLocationRankingAdd(
                FulfillmentGroupLocationRankingAddOperation {
                    fulfillment_group_handle: "second".to_string(),
                    rankings: vec![ranked("north", 0)],
                },
            ),
        ],
    };
    assert_eq!(result, expected);
}

#[test]
fn plus_sign_value_resolves_like_parse() {
    let groups = vec![FulfillmentGroup {
        handle: "g".to_string(),
        inventory_location_handles: vec!["west".to_string(), "east".to_string()],
        lines: vec![tagged_line("gid://shopify/CartLine/1", "_Location ID", Some("+123"))],
    }];
    let locations = vec![
        loc("gid://shopify/Location/123", "west"),
        loc("gid://shopify/Location/124", "east"),
    ];
    let result = cart_fulfillment_groups_location_rankings_generate_run(&groups, &locations);
    let expected = CartFulfillmentGroupsLocationRankingsGenerateRunResult {
        operations: vec![Operation::FulfillmentGroupLocationRankingAdd(
            FulfillmentGroupLocationRankingAddOperation {
                fulfillment_group_handle: "g".to_string(),
                rankings: vec![ranked("west", 0), ranked("east", 1)],
            },
        )],
    };
    assert_eq!(result, expected);
}

#[test]
fn parse_u64_edge_cases() {
    assert_eq!(parse_u64(""), None);
    assert_eq!(parse_u64("+"), None);
    assert_eq!(parse_u64("+0"), Some(0));
    assert_eq!(parse_u64("007"), Some(7));
    assert_eq!(parse_u64(" 7"), None);
    assert_eq!(parse_u64("7 "), None);
    assert_eq!(parse_u64("-7"), None);
    assert_eq!(parse_u64("18446744073709551615"), Some(u64::MAX));
    assert_eq!(parse_u64("18446744073709551616"), None);
    assert_eq!(parse_u64("99999999999999999999999"), None);
}

#[test]
fn extract_handles_empty_and_trailing_segments() {
    assert_eq!(extract_numeric_id_from_gid(""), None);
    assert_eq!(extract_numeric_id_from_gid("gid://shopify/Location/"), None);
    assert_eq!(extract_numeric_id_from_gid("42"), Some(42));
    assert_eq!(
        extract_numeric_id_from_gid("gid://shopify/Location/18446744073709551616"),
        None
    );
}
