use phat_form::registry::PhatForm;
use phat_form::types::{Error, HackerInfo, Identity};

fn id_of(b: u8) -> Identity {
    Identity { bytes: [b; 32] }
}

fn john_info(discord: &str) -> HackerInfo {
    HackerInfo {
        first_name: String::from("John"),
        last_name: String::from("Doe"),
        street_address_1: String::from("1111 Brickhouse Dr."),
        street_address_2: None,
        city: String::from("City"),
        state_region_province: String::from("State/Region/Province"),
        country: String::from("Country"),
        po_box: None,
        email: String::from("Email"),
        discord: String::from(discord),
        twitter: String::from(discord),
    }
}

fn alice_info() -> HackerInfo {
    HackerInfo {
        first_name: String::from("FirstName"),
        last_name: String::from("LastName"),
        street_address_1: String::from("StreetAddress1"),
        street_address_2: Some(String::from("StreetAddress2")),
        city: String::from("City"),
        state_region_province: String::from("State"),
        country: String::from("Country"),
        po_box: None,
        email: String::from("Email"),
        discord: String::from("alice"),
        twitter: String::from("alice"),
    }
}

#[test]
fn add_hacker_info_works() {
    let admin = id_of(0x10);
    let mut contract = PhatForm::default(admin);
    let john = id_of(0x2);
    let jane = id_of(0x5);
    // Add test account to whitelist
    assert_eq!(contract.add_to_whitelist(admin, john), Ok(()));
    let info = john_info("john");
    // Current account can add hacker info
    assert!(contract.add_hacker_info(john, info).unwrap());
    // Non-whitelisted account cannot add hacker info
    let non_whitelisted_info = HackerInfo {
        first_name: String::from("Jane"),
        last_name: String::from("Doe"),
        street_address_1: String::from("1111 Brickhouse Dr."),
        street_address_2: None,
        city: String::from("City"),
        state_region_province: String::from("State/Region/Province"),
        country: String::from("Country"),
        po_box: None,
        email: String::from("Email"),
        discord: String::from("jane"),
        twitter: String::from("jane"),
    };
    assert_eq!(
        contract.add_hacker_info(jane, non_whitelisted_info),
        Err(Error::NoPermissions)
    );
}

#[test]
fn add_to_whitelist_works() {
    let admin = id_of(0x10);
    let mut contract = PhatForm::default(admin);
    let account = id_of(0x1);
    // Only the admin can add to the whitelist
    assert_eq!(contract.add_to_whitelist(admin, account), Ok(()));
    assert!(contract.whitelist.contains(&account));
}

#[test]
fn get_all_hacker_info_works() {
    let admin = id_of(0x10);
    let mut contract = PhatForm::default(admin);
    let alice = id_of(0x1);
    let john = id_of(0x2);
    let jane = id_of(0x5);
    assert_eq!(contract.add_to_whitelist(admin, alice), Ok(()));
    assert_eq!(contract.add_to_whitelist(admin, john), Ok(()));
    assert_eq!(contract.add_to_whitelist(admin, jane), Ok(()));
    let info = alice_info();
    assert!(contract.add_hacker_info(alice, info).unwrap());
    let info_john = john_info("john");
    // Current account can add hacker info
    assert!(contract.add_hacker_info(john, info_john).unwrap());
    let info_jane = john_info("jane");
    assert!(contract.add_hacker_info(jane, info_jane).unwrap());

    // Try to get all hacker info as an admin
    let all_hacker_info = contract.get_all_hacker_info(admin);
    let all_unwrap_info = all_hacker_info.unwrap();
    assert!(!all_unwrap_info.is_empty());
    assert_eq!(all_unwrap_info.len(), 3);

    // Non-admins cannot get all hacker info
    let non_admin_hacker_info = contract.get_all_hacker_info(jane);
    assert_eq!(non_admin_hacker_info, Err(Error::NoPermissions));
}

#[test]
fn add_vec_to_whitelist_works() {
    let admin = id_of(0x10);
    let mut contract = PhatForm::default(admin);
    let alice = id_of(0x1);
    let john = id_of(0x2);
    let jane = id_of(0x5);
    let account_vec: Vec<Identity> = vec![alice, john, jane];
    assert_eq!(contract.add_vec_to_whitelist(admin, account_vec), Ok(()));
    let info = alice_info();
    let info_john = john_info("john");
    let info_jane = john_info("jane");
    assert!(contract.add_hacker_info(alice, info).unwrap());
    // Current account can add hacker info
    assert!(contract.add_hacker_info(john, info_john).unwrap());
    assert!(contract.add_hacker_info(jane, info_jane).unwrap());

    // Try to get all hacker info as an admin
    let all_hacker_info = contract.get_all_hacker_info(admin);
    let all_unwrap_info = all_hacker_info.unwrap();
    assert!(!all_unwrap_info.is_empty());
    assert_eq!(all_unwrap_info.len(), 3);

    // Non-admins cannot get all hacker info
    let non_admin_hacker_info = contract.get_all_hacker_info(jane);
    assert_eq!(non_admin_hacker_info, Err(Error::NoPermissions));
}

#[test]
fn never_whitelisted_caller_cannot_submit() {
    let admin = id_of(0x10);
    let mut contract = PhatForm::default(admin);
    let stranger = id_of(0x7);
    assert_eq!(
        contract.add_hacker_info(stranger, john_info("john")),
        Err(Error::NoPermissions)
    );
    // even the admin is not whitelisted by construction
    assert_eq!(
        contract.add_hacker_info(admin, john_info("john")),
        Err(Error::NoPermissions)
    );
}

#[test]
fn slots_follow_insertion_order_and_stay_stable() {
    let admin = id_of(0x10);
    let mut contract = PhatForm::default(admin);
    let b = id_of(0x2);
    let c = id_of(0x3);
    assert_eq!(contract.add_to_whitelist(admin, b), Ok(()));
    assert_eq!(contract.get_hacker_id_or_zero(b), 1);
    assert_eq!(contract.add_to_whitelist(admin, c), Ok(()));
    assert_eq!(contract.get_hacker_id_or_zero(c), 2);
    // earlier assignments are unchanged by later adds
    assert_eq!(contract.get_hacker_id_or_zero(b), 1);
    assert_eq!(contract.get_hacker_id_or_zero(b), 1);
    // an identity never whitelisted resolves to the reserved slot 0
    assert_eq!(contract.get_hacker_id_or_zero(id_of(0x9)), 0);
}

#[test]
fn readding_identity_is_refused_and_count_unchanged() {
    let admin = id_of(0x10);
    let mut contract = PhatForm::default(admin);
    let b = id_of(0x2);
    assert_eq!(contract.add_to_whitelist(admin, b), Ok(()));
    assert_eq!(contract.hacker_count(), 2);
    assert_eq!(
        contract.add_to_whitelist(admin, b),
        Err(Error::AccountAlreadyAdded)
    );
    assert_eq!(contract.hacker_count(), 2);
}

#[test]
fn batch_add_skips_duplicates_silently() {
    let admin = id_of(0x10);
    let mut contract = PhatForm::default(admin);
    let b = id_of(0x2);
    let c = id_of(0x3);
    let d = id_of(0x4);
    assert_eq!(contract.add_to_whitelist(admin, b), Ok(()));
    // b is already whitelisted, c occurs twice within the batch
    let batch: Vec<Identity> = vec![b, c, c, d];
    assert_eq!(contract.add_vec_to_whitelist(admin, batch), Ok(()));
    assert_eq!(contract.hacker_count(), 4);
    assert_eq!(contract.get_hacker_id_or_zero(b), 1);
    assert_eq!(contract.get_hacker_id_or_zero(c), 2);
    assert_eq!(contract.get_hacker_id_or_zero(d), 3);
}

#[test]
fn count_is_one_more_than_identities_added() {
    let admin = id_of(0x10);
    let mut contract = PhatForm::default(admin);
    assert_eq!(contract.hacker_count(), 1);
    for b in 1..=5u8 {
        assert_eq!(contract.add_to_whitelist(admin, id_of(b)), Ok(()));
    }
    assert_eq!(contract.hacker_count(), 6);
}

#[test]
fn count_needs_no_permission() {
    let admin = id_of(0x10);
    let contract = PhatForm::default(admin);
    // any caller may read the counter; it takes no caller at all
    assert_eq!(contract.hacker_count(), 1);
}

#[test]
fn non_admin_cannot_list_records() {
    let admin = id_of(0x10);
    let mut contract = PhatForm::default(admin);
    let b = id_of(0x2);
    let stranger = id_of(0x9);
    // with no records stored
    assert_eq!(
        contract.get_all_hacker_info(stranger),
        Err(Error::NoPermissions)
    );
    // and with a record stored
    assert_eq!(contract.add_to_whitelist(admin, b), Ok(()));
    assert!(contract.add_hacker_info(b, alice_info()).unwrap());
    assert_eq!(
        contract.get_all_hacker_info(stranger),
        Err(Error::NoPermissions)
    );
    assert_eq!(contract.get_all_hacker_info(b), Err(Error::NoPermissions));
}

#[test]
fn listing_before_and_after_first_submission() {
    let admin = id_of(0x10);
    let mut contract = PhatForm::default(admin);
    let b = id_of(0x2);
    assert_eq!(contract.add_to_whitelist(admin, b), Ok(()));
    // no submissions yet
    assert_eq!(
        contract.get_all_hacker_info(admin),
        Err(Error::EmptyHackerInfo)
    );
    assert!(contract.add_hacker_info(b, alice_info()).unwrap());
    assert_eq!(contract.get_all_hacker_info(admin), Ok(vec![alice_info()]));
}

#[test]
fn whole_flow_as_admin_member_and_stranger() {
    let a = id_of(0x11);
    let b = id_of(0x2);
    let c = id_of(0x3);
    let mut contract = PhatForm::default(a);
    assert_eq!(contract.add_to_whitelist(a, b), Ok(()));
    assert_eq!(contract.hacker_count(), 2);
    assert!(contract.add_hacker_info(b, john_info("john")).unwrap());
    assert_eq!(
        contract.get_all_hacker_info(a),
        Ok(vec![john_info("john")])
    );
    assert_eq!(
        contract.add_hacker_info(c, john_info("john")),
        Err(Error::NoPermissions)
    );
}

#[test]
fn non_admin_cannot_add_to_whitelist() {
    let admin = id_of(0x10);
    let mut contract = PhatForm::default(admin);
    let c = id_of(0x3);
    let d = id_of(0x4);
    assert_eq!(contract.add_to_whitelist(c, d), Err(Error::NoPermissions));
    assert_eq!(contract.hacker_count(), 1);
    assert!(!contract.whitelist.contains(&d));
    assert_eq!(
        contract.add_vec_to_whitelist(c, vec![d]),
        Err(Error::NoPermissions)
    );
    assert_eq!(contract.hacker_count(), 1);
}

#[test]
fn resubmission_overwrites_the_slot() {
    let admin = id_of(0x10);
    let mut contract = PhatForm::default(admin);
    let b = id_of(0x2);
    assert_eq!(contract.add_to_whitelist(admin, b), Ok(()));
    assert!(contract.add_hacker_info(b, john_info("john")).unwrap());
    assert_eq!(contract.get_all_hacker_info(admin).unwrap().len(), 1);
    // submit again under the same identity: overwritten, not appended
    assert!(contract.add_hacker_info(b, alice_info()).unwrap());
    let listed = contract.get_all_hacker_info(admin).unwrap();
    assert_eq!(listed.len(), 1);
    assert_eq!(listed, vec![alice_info()]);
}

#[test]
fn reserved_zero_identity_cannot_submit() {
    let admin = id_of(0x10);
    let mut contract = PhatForm::default(admin);
    // the all-zero identity occupies the reserved slot 0
    let zero = Identity { bytes: [0u8; 32] };
    assert!(contract.whitelist.contains(&zero));
    assert_eq!(
        contract.add_hacker_info(zero, alice_info()),
        Err(Error::MissingHackerId)
    );
    // and it cannot be whitelisted again
    assert_eq!(
        contract.add_to_whitelist(admin, zero),
        Err(Error::AccountAlreadyAdded)
    );
}
