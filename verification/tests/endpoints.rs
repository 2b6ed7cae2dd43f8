use quest_server::errors::get_error;
use quest_server::metadata::{parse_u32, token_uri, uri_response, LevelQuery};
use quest_server::tasks::{
    create_contract_task, next_task_id, task_creation_response, ContractCall, CreateContract,
};
use quest_server::verify_borrow::{
    completion_response, felt_is_zero, verify_borrow_decision, Felt, ZKLEND_TASK_ID,
};

fn body(quest_id: i64) -> CreateContract {
    CreateContract {
        quest_id,
        name: "Borrow on zkLend".to_string(),
        desc: "Borrow any liquidity".to_string(),
        href: "https://zklend.com".to_string(),
        cta: "Borrow now".to_string(),
        calls: vec![ContractCall {
            contract_address: "0x1".to_string(),
            entry_point: "borrow".to_string(),
            calldata: vec!["0x2".to_string()],
        }],
    }
}

#[test]
fn error_response_shape() {
    let e = get_error("boom".to_string());
    assert_eq!(e.status, 500);
    assert_eq!(e.message, "boom");
}

#[test]
fn first_task_id_is_one() {
    assert_eq!(next_task_id(None), 1);
}

#[test]
fn next_task_id_is_max_plus_one() {
    assert_eq!(next_task_id(Some(41)), 42);
    assert_eq!(next_task_id(Some(1)), 2);
}

#[test]
fn authorized_creation_builds_record() {
    let t = create_contract_task(true, Some(7), body(3)).unwrap_or_else(|_| panic!());
    assert_eq!(t.id, 8);
    assert_eq!(t.quest_id, 3);
    assert_eq!(t.name, "Borrow on zkLend");
    assert_eq!(t.verify_endpoint, "quests/verify_contract");
    assert_eq!(t.verify_endpoint_type, "default");
    assert_eq!(t.task_type, "contract");
    assert_eq!(t.calls.len(), 1);
    assert_eq!(t.calls[0].entry_point, "borrow");
}

#[test]
fn creation_on_empty_collection_gets_id_one() {
    let t = create_contract_task(true, None, body(9)).unwrap_or_else(|_| panic!());
    assert_eq!(t.id, 1);
}

#[test]
fn unauthorized_creation_fails_and_builds_nothing() {
    let r = create_contract_task(false, Some(7), body(3));
    match r {
        Ok(_) => panic!("unauthorized creation must fail"),
        Err(e) => {
            assert_eq!(e.status, 500);
            assert_eq!(e.message, "Error creating task");
        }
    }
    // Authorization is decided before any allocation, so the refusal
    // stands even when the id space is full.
    let r = create_contract_task(false, Some(u32::MAX), body(3));
    match r {
        Ok(_) => panic!("unauthorized creation must fail"),
        Err(e) => {
            assert_eq!(e.status, 500);
            assert_eq!(e.message, "Error creating task");
        }
    }
}

#[test]
fn insert_outcome_maps_to_message() {
    assert_eq!(task_creation_response(true).unwrap_or_else(|_| panic!()), "Task created successfully");
    let e = match task_creation_response(false) {
        Ok(_) => panic!("failed insert must map to an error"),
        Err(e) => e,
    };
    assert_eq!(e.message, "Error creating tasks");
}

#[test]
fn parse_u32_accepts_digits() {
    assert_eq!(parse_u32("0"), Some(0));
    assert_eq!(parse_u32("42"), Some(42));
    assert_eq!(parse_u32("4294967295"), Some(u32::MAX));
    // One leading plus sign is accepted, as the original's str::parse was.
    assert_eq!(parse_u32("+3"), Some(3));
    assert_eq!(parse_u32("+0"), Some(0));
}

#[test]
fn parse_u32_rejects_other_text() {
    assert_eq!(parse_u32(""), None);
    assert_eq!(parse_u32("12a"), None);
    assert_eq!(parse_u32("-3"), None);
    assert_eq!(parse_u32("+"), None);
    assert_eq!(parse_u32("++2"), None);
    assert_eq!(parse_u32("4294967296"), None);
    assert_eq!(parse_u32("99999999999999999999"), None);
}

#[test]
fn levels_map_to_arcade_metadata() {
    let names = ["StarkFighter Bronze Arcade", "StarkFighter Silver Arcade", "StarkFighter Gold Arcade"];
    for level in 1u32..=3 {
        let t = token_uri(Some(level), "https://app").unwrap_or_else(|_| panic!());
        assert_eq!(t.name, names[(level - 1) as usize]);
        assert_eq!(t.description, "A starknet.quest NFT won during the Starkfighter event.");
        assert_eq!(t.image, format!("https://app/starkfighter/level{}.webp", level));
        let attrs = t.attributes.unwrap_or_else(|| panic!());
        assert_eq!(attrs.len(), 1);
        assert_eq!(attrs[0].trait_type, "level");
        assert_eq!(attrs[0].value, level);
    }
}

#[test]
fn level_four_maps_to_totem_metadata() {
    let t = token_uri(Some(4), "https://app").unwrap_or_else(|_| panic!());
    assert_eq!(t.name, "Starknet ID Tribe Totem");
    assert_eq!(t.description, "A Starknet Quest NFT won for creating a StarknetID profile.");
    assert_eq!(t.image, "https://app/starknetid/nft1.webp");
    assert!(t.attributes.is_none());
}

#[test]
fn other_levels_are_validation_errors() {
    for level in [Some(0u32), Some(5), Some(100), None] {
        match token_uri(level, "https://app") {
            Ok(_) => panic!("level {:?} must be rejected", level),
            Err(e) => assert_eq!(e.message, "Error, this level is not correct"),
        }
    }
}

#[test]
fn uri_response_parses_the_query() {
    let ok = uri_response(LevelQuery { level: Some("2".to_string()) }, "https://app");
    assert_eq!(ok.unwrap_or_else(|_| panic!()).name, "StarkFighter Silver Arcade");
    let signed = uri_response(LevelQuery { level: Some("+2".to_string()) }, "https://app");
    assert_eq!(signed.unwrap_or_else(|_| panic!()).name, "StarkFighter Silver Arcade");
    for bad in [Some("abc"), Some(""), Some("0"), Some("7"), None] {
        let q = LevelQuery { level: bad.map(|s| s.to_string()) };
        match uri_response(q, "https://app") {
            Ok(_) => panic!("query {:?} must be rejected", bad),
            Err(e) => assert_eq!(e.message, "Error, this level is not correct"),
        }
    }
}

fn felt(bytes: &[u8]) -> Felt {
    Felt { bytes: bytes.to_vec() }
}

#[test]
fn zero_sentinel_is_recognized() {
    assert!(felt_is_zero(&felt(&[0, 0, 0, 0])));
    assert!(felt_is_zero(&felt(&[])));
    assert!(!felt_is_zero(&felt(&[0, 1, 0])));
}

#[test]
fn no_debt_is_an_error_without_completion() {
    let r = verify_borrow_decision(felt(&[7]), Ok(vec![felt(&[0, 0])]));
    match r {
        Ok(_) => panic!("a zero sentinel must not ask for a completion"),
        Err(e) => {
            assert_eq!(e.status, 500);
            assert_eq!(e.message, "You didn't borrow any liquidity.");
        }
    }
}

#[test]
fn debt_asks_for_exactly_one_completion() {
    let r = verify_borrow_decision(felt(&[7]), Ok(vec![felt(&[0, 3]), felt(&[0])]));
    match r {
        Ok(action) => {
            assert_eq!(action.address.bytes, vec![7]);
            assert_eq!(action.task_id, ZKLEND_TASK_ID);
            assert_eq!(action.task_id, 24);
        }
        Err(_) => panic!("a nonzero result must verify the borrow"),
    }
}

#[test]
fn failed_call_surfaces_its_error_text() {
    let r = verify_borrow_decision(felt(&[7]), Err("rpc unreachable".to_string()));
    match r {
        Ok(_) => panic!("a failed call must fail the request"),
        Err(e) => assert_eq!(e.message, "rpc unreachable"),
    }
}

#[test]
fn completion_outcome_maps_to_acknowledgment() {
    let ok = completion_response(Ok(()));
    assert!(ok.unwrap_or_else(|_| panic!()).res);
    match completion_response(Err("write failed".to_string())) {
        Ok(_) => panic!("a failed write must fail the request"),
        Err(e) => assert_eq!(e.message, "write failed"),
    }
}
