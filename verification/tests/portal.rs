use gif_portal::codec::serialize_account;
use gif_portal::portal::account_used_bytes;
use gif_portal::portal::add_gif;
use gif_portal::portal::initialize;
use gif_portal::portal::BaseAccount;
use gif_portal::portal::PortalError;
use gif_portal::portal::PortalSlot;
use gif_portal::portal::ACCOUNT_SPACE;

fn held(slot: &PortalSlot) -> &BaseAccount {
    match slot {
        PortalSlot::Holding(account) => account,
        PortalSlot::Vacant => panic!("slot is vacant"),
    }
}

#[test]
fn create_portal_starts_empty() {
    let mut slot = PortalSlot::Vacant;
    assert_eq!(initialize(&mut slot), Ok(()));
    let account = held(&slot);
    assert_eq!(account.total_gifs, 0);
    assert!(account.gif_list.is_empty());
    assert_eq!(account_used_bytes(account), 12);
}

#[test]
fn create_portal_twice_fails_and_keeps_record() {
    let mut slot = PortalSlot::Vacant;
    assert_eq!(initialize(&mut slot), Ok(()));
    assert_eq!(add_gif(&mut slot, "https://a".to_string(), [3u8; 32]), Ok(()));
    let before = slot.clone();
    assert_eq!(initialize(&mut slot), Err(PortalError::AlreadyInitialized));
    assert_eq!(slot, before);
}

#[test]
fn append_to_vacant_slot_fails_without_state() {
    let mut slot = PortalSlot::Vacant;
    assert_eq!(
        add_gif(&mut slot, "https://a".to_string(), [1u8; 32]),
        Err(PortalError::NotInitialized)
    );
    assert_eq!(slot, PortalSlot::Vacant);
}

#[test]
fn end_to_end_two_appends() {
    let x = [1u8; 32];
    let y = [2u8; 32];
    let mut slot = PortalSlot::Vacant;
    assert_eq!(initialize(&mut slot), Ok(()));
    assert_eq!(held(&slot).total_gifs, 0);
    assert!(held(&slot).gif_list.is_empty());

    assert_eq!(add_gif(&mut slot, "https://a".to_string(), x), Ok(()));
    {
        let account = held(&slot);
        assert_eq!(account.total_gifs, 1);
        assert_eq!(account.gif_list.len(), 1);
        assert_eq!(account.gif_list[0].gif_link, "https://a");
        assert_eq!(account.gif_list[0].user_address, x);
    }

    assert_eq!(add_gif(&mut slot, "https://b".to_string(), y), Ok(()));
    {
        let account = held(&slot);
        assert_eq!(account.total_gifs, 2);
        assert_eq!(account.gif_list.len(), 2);
        assert_eq!(account.gif_list[0].gif_link, "https://a");
        assert_eq!(account.gif_list[0].user_address, x);
        assert_eq!(account.gif_list[1].gif_link, "https://b");
        assert_eq!(account.gif_list[1].user_address, y);
    }
}

#[test]
fn counter_tracks_each_append_in_order() {
    let mut slot = PortalSlot::Vacant;
    assert_eq!(initialize(&mut slot), Ok(()));
    for k in 0..100u64 {
        let id = [k as u8; 32];
        assert_eq!(add_gif(&mut slot, format!("https://link/{}", k), id), Ok(()));
        assert_eq!(held(&slot).total_gifs, k + 1);
        assert_eq!(held(&slot).gif_list.len() as u64, k + 1);
    }
    let account = held(&slot);
    for k in 0..100usize {
        assert_eq!(account.gif_list[k].gif_link, format!("https://link/{}", k));
        assert_eq!(account.gif_list[k].user_address, [k as u8; 32]);
    }
}

#[test]
fn submitter_identity_is_per_call() {
    let mut slot = PortalSlot::Vacant;
    assert_eq!(initialize(&mut slot), Ok(()));
    let x = [9u8; 32];
    let y = [200u8; 32];
    assert_eq!(add_gif(&mut slot, "https://same".to_string(), x), Ok(()));
    assert_eq!(add_gif(&mut slot, "https://same".to_string(), y), Ok(()));
    let account = held(&slot);
    assert_eq!(account.gif_list[0].user_address, x);
    assert_eq!(account.gif_list[1].user_address, y);
}

#[test]
fn append_crossing_the_budget_fails_unchanged() {
    // The empty record occupies 12 bytes; an entry occupies 36 bytes plus
    // its link bytes. Eight entries with 1000-byte links reach 8300.
    let mut slot = PortalSlot::Vacant;
    assert_eq!(initialize(&mut slot), Ok(()));
    let long_link = "a".repeat(1000);
    for _ in 0..8 {
        assert_eq!(add_gif(&mut slot, long_link.clone(), [5u8; 32]), Ok(()));
    }
    assert_eq!(account_used_bytes(held(&slot)), 8300);

    // One more such entry would reach 9336 and cross the 9000-byte budget.
    let before = slot.clone();
    assert_eq!(
        add_gif(&mut slot, long_link.clone(), [5u8; 32]),
        Err(PortalError::CapacityExceeded)
    );
    assert_eq!(slot, before);
    assert_eq!(held(&slot).total_gifs, 8);

    // A smaller entry still fits: 8300 + 36 + 600 = 8936.
    assert_eq!(add_gif(&mut slot, "b".repeat(600), [5u8; 32]), Ok(()));
    assert_eq!(account_used_bytes(held(&slot)), 8936);

    // An entry that lands exactly on the budget is still accepted.
    assert_eq!(add_gif(&mut slot, "c".repeat(28), [5u8; 32]), Ok(()));
    assert_eq!(account_used_bytes(held(&slot)), ACCOUNT_SPACE);

    // Now even an empty link (36 bytes) must be refused.
    let before = slot.clone();
    assert_eq!(
        add_gif(&mut slot, String::new(), [5u8; 32]),
        Err(PortalError::CapacityExceeded)
    );
    assert_eq!(slot, before);
}

#[test]
fn oversized_single_link_is_refused() {
    let mut slot = PortalSlot::Vacant;
    assert_eq!(initialize(&mut slot), Ok(()));
    let before = slot.clone();
    assert_eq!(
        add_gif(&mut slot, "x".repeat(10000), [0u8; 32]),
        Err(PortalError::CapacityExceeded)
    );
    assert_eq!(slot, before);
}

#[test]
fn serialized_record_has_the_documented_layout() {
    let mut slot = PortalSlot::Vacant;
    assert_eq!(initialize(&mut slot), Ok(()));
    assert_eq!(add_gif(&mut slot, "https://a".to_string(), [7u8; 32]), Ok(()));
    let bytes = serialize_account(held(&slot));

    let mut expected: Vec<u8> = Vec::new();
    expected.extend_from_slice(&[1, 0, 0, 0, 0, 0, 0, 0]); // total_count, 8 bytes
    expected.extend_from_slice(&[1, 0, 0, 0]); // number of entries
    expected.extend_from_slice(&[9, 0, 0, 0]); // link byte length
    expected.extend_from_slice(b"https://a");
    expected.extend_from_slice(&[7u8; 32]);
    assert_eq!(bytes, expected);
    assert_eq!(bytes.len(), account_used_bytes(held(&slot)));
}

#[test]
fn empty_record_serializes_to_twelve_zero_bytes() {
    let mut slot = PortalSlot::Vacant;
    assert_eq!(initialize(&mut slot), Ok(()));
    let bytes = serialize_account(held(&slot));
    assert_eq!(bytes, vec![0u8; 12]);
}

#[test]
fn multibyte_links_count_utf8_bytes_not_chars() {
    let mut slot = PortalSlot::Vacant;
    assert_eq!(initialize(&mut slot), Ok(()));
    // Four characters, ten UTF-8 bytes.
    let link = "\u{2603}\u{2764}\u{00e9}\u{00fc}".to_string();
    let byte_len = link.len();
    assert_eq!(byte_len, 10);
    assert_eq!(add_gif(&mut slot, link.clone(), [4u8; 32]), Ok(()));
    assert_eq!(account_used_bytes(held(&slot)), 12 + 36 + byte_len);
    let bytes = serialize_account(held(&slot));
    assert_eq!(&bytes[12..16], &[byte_len as u8, 0, 0, 0]);
    assert_eq!(&bytes[16..16 + byte_len], link.as_bytes());
}

#[test]
fn check_account_accepts_the_stored_shape() {
    let mut slot = PortalSlot::Vacant;
    assert_eq!(initialize(&mut slot), Ok(()));
    assert_eq!(add_gif(&mut slot, "https://a".to_string(), [1u8; 32]), Ok(()));
    assert!(gif_portal::portal::check_account(held(&slot)));
}

#[test]
fn check_account_rejects_a_counter_mismatch() {
    let account = BaseAccount {
        total_gifs: 5,
        gif_list: Vec::new(),
    };
    assert!(!gif_portal::portal::check_account(&account));
}

#[test]
fn check_account_rejects_an_oversized_record() {
    let account = BaseAccount {
        total_gifs: 1,
        gif_list: vec![gif_portal::portal::ItemStruct {
            gif_link: "x".repeat(9001),
            user_address: [0u8; 32],
        }],
    };
    assert!(!gif_portal::portal::check_account(&account));
}
