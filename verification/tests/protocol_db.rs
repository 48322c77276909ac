use uefi_dxe::protocol_db::{
    EfiError, Guid, OpenProtocolInformation, ProtocolDb, OPEN_PROTOCOL_BY_CHILD_CONTROLLER, OPEN_PROTOCOL_BY_DRIVER,
    OPEN_PROTOCOL_BY_HANDLE_PROTOCOL, OPEN_PROTOCOL_EXCLUSIVE, OPEN_PROTOCOL_GET_PROTOCOL, OPEN_PROTOCOL_TEST_PROTOCOL,
};

/// The GUID of a protocol written in its textual form.
fn pdb_guid(text: &str) -> Guid {
    Guid::from_bytes(uuid::Uuid::parse_str(text).unwrap().as_bytes())
}

const GUID1_TEXT: &str = "0e896c7a-57dc-4987-bc22-abc3a8263210";
const GUID2_TEXT: &str = "9c5dca1d-ac0f-46db-9eba-2bc961c711a2";
const GUID3_TEXT: &str = "2a32017e-7e6b-4563-890d-fff945530438";
const GUID4_TEXT: &str = "98d32ea1-e980-46b5-bb2c-564934c8cce6";

fn usage_of(db: &ProtocolDb, handle: usize, guid: Guid) -> Vec<OpenProtocolInformation> {
    db.handles[handle - 1].get(&guid.0).unwrap().usage.clone()
}

#[test]
fn new_should_create_protocol_db() {
    let db = ProtocolDb::new();
    assert_eq!(db.handles.len(), 0)
}

#[test]
fn install_protocol_interface_should_install_protocol_interface() {
    let mut db = ProtocolDb::new();
    let guid1 = pdb_guid(GUID1_TEXT);
    let interface1: usize = 0x1234;

    let handle = db.install_protocol_interface(None, guid1, interface1).unwrap();

    assert_ne!(handle, 0);
    let index = handle - 1;
    let created_instance = db.handles[index].get(&guid1.0).unwrap();
    assert_eq!(interface1, created_instance.interface);
    assert_eq!(created_instance.opened_by_driver, false);
    assert_eq!(created_instance.opened_by_exclusive, false);
    assert!(created_instance.usage.is_empty());
}

#[test]
fn uninstall_protocol_interface_should_uninstall_protocol_interface() {
    let mut db = ProtocolDb::new();
    let guid1 = pdb_guid(GUID1_TEXT);
    let interface1: usize = 0x1234;

    let handle = db.install_protocol_interface(None, guid1, interface1).unwrap();
    let index = handle - 1;

    db.uninstall_protocol_interface(handle, guid1, interface1).unwrap();

    assert_eq!(db.handles[index].contains_key(&guid1.0), false);
}

#[test]
fn uninstall_protocol_interface_should_give_access_denied_if_interface_in_use() {
    let mut db = ProtocolDb::new();
    let guid1 = pdb_guid(GUID1_TEXT);
    let interface1: usize = 0x1234;

    let handle = db.install_protocol_interface(None, guid1, interface1).unwrap();
    let index = handle - 1;

    // Add a usage record that has the protocol open by driver.
    db.handles[index].get_mut(&guid1.0).unwrap().usage.push(OpenProtocolInformation {
        agent_handle: None,
        controller_handle: None,
        attributes: OPEN_PROTOCOL_BY_DRIVER,
        open_count: 1,
    });

    let err = db.uninstall_protocol_interface(handle, guid1, interface1);
    assert_eq!(err, Err(EfiError::AccessDenied));

    assert_eq!(db.handles[index].contains_key(&guid1.0), true);
}

#[test]
fn uninstall_protocol_interface_should_give_not_found_if_not_found() {
    let mut db = ProtocolDb::new();
    let guid1 = pdb_guid(GUID1_TEXT);
    let interface1: usize = 0x1234;
    let guid2 = pdb_guid(GUID2_TEXT);
    let interface2: usize = 0x4321;

    let handle = db.install_protocol_interface(None, guid1, interface1).unwrap();

    let err = db.uninstall_protocol_interface(handle, guid2, interface1);
    assert_eq!(err, Err(EfiError::NotFound));

    let err = db.uninstall_protocol_interface(handle, guid1, interface2);
    assert_eq!(err, Err(EfiError::NotFound));
}

#[test]
fn reinstall_protocol_interface_should_replace_the_interface() {
    let mut db = ProtocolDb::new();
    let guid1 = pdb_guid(GUID1_TEXT);
    let interface1: usize = 0x1234;
    let interface2: usize = 0x4321;

    let handle = db.install_protocol_interface(None, guid1, interface1).unwrap();
    let index = handle - 1;

    db.reinstall_protocol_interface(handle, guid1, interface1, interface2).unwrap();
    assert_eq!(db.handles[index].get(&guid1.0).unwrap().interface, interface2);
}

#[test]
fn locate_handle_should_locate_handles() {
    let mut db = ProtocolDb::new();
    let guid1 = pdb_guid(GUID1_TEXT);
    let interface1: usize = 0x1234;
    let guid2 = pdb_guid(GUID2_TEXT);
    let interface2: usize = 0x4321;
    let guid3 = pdb_guid(GUID3_TEXT);

    let handle1 = db.install_protocol_interface(None, guid1, interface1).unwrap();
    assert_eq!(handle1, db.install_protocol_interface(Some(handle1), guid2, interface2).unwrap());
    let handle2 = db.install_protocol_interface(None, guid1, interface1).unwrap();
    let handle3 = db.install_protocol_interface(None, guid1, interface1).unwrap();
    let handle4 = db.install_protocol_interface(None, guid1, interface1).unwrap();
    assert_eq!(handle4, db.install_protocol_interface(Some(handle4), guid2, interface2).unwrap());

    let handles = db.locate_handles(None).unwrap();
    for handle in [handle1, handle2, handle3, handle4] {
        assert!(handles.contains(&handle));
    }

    let handles = db.locate_handles(Some(guid2)).unwrap();
    for handle in [handle1, handle4] {
        assert!(handles.contains(&handle));
    }
    for handle in [handle2, handle3] {
        assert!(!handles.contains(&handle));
    }

    assert_eq!(db.locate_handles(Some(guid3)), Err(EfiError::NotFound));
}

#[test]
fn validate_handle_should_validate_good_handles_and_reject_bad_ones() {
    let mut db = ProtocolDb::new();
    let guid1 = pdb_guid(GUID1_TEXT);
    let interface1: usize = 0x1234;

    let handle1 = db.install_protocol_interface(None, guid1, interface1).unwrap();

    assert!(db.validate_handle(handle1));
    let handle2 = handle1 + 1;
    assert!(!db.validate_handle(handle2));
}

#[test]
fn validate_handle_empty_handles_are_invalid() {
    let mut db = ProtocolDb::new();
    let guid1 = pdb_guid(GUID1_TEXT);
    let interface1: usize = 0x1234;

    let handle1 = db.install_protocol_interface(None, guid1, interface1).unwrap();
    db.uninstall_protocol_interface(handle1, guid1, interface1).unwrap();
    assert!(!db.validate_handle(handle1));
}

#[test]
fn add_protocol_usage_should_update_protocol_usages() {
    let mut db = ProtocolDb::new();
    let guid1 = pdb_guid(GUID1_TEXT);
    let interface1: usize = 0x1234;

    let handle1 = db.install_protocol_interface(None, guid1, interface1).unwrap();
    let handle2 = db.install_protocol_interface(None, guid1, interface1).unwrap();
    let handle3 = db.install_protocol_interface(None, guid1, interface1).unwrap();

    // Adding a usage.
    db.add_protocol_usage(handle1, guid1, Some(handle2), Some(handle3), OPEN_PROTOCOL_GET_PROTOCOL).unwrap();
    let protocol_user_list = usage_of(&db, handle1, guid1);
    assert_eq!(1, protocol_user_list.len());
    assert_eq!(1, protocol_user_list[0].open_count);

    // Adding the exact same usage does not create a new usage; it updates open_count.
    db.add_protocol_usage(handle1, guid1, Some(handle2), Some(handle3), OPEN_PROTOCOL_GET_PROTOCOL).unwrap();
    let protocol_user_list = usage_of(&db, handle1, guid1);
    assert_eq!(1, protocol_user_list.len());
    assert_eq!(2, protocol_user_list[0].open_count);
}

#[test]
fn add_protocol_usage_by_child_controller() {
    let mut db = ProtocolDb::new();
    let guid1 = pdb_guid(GUID1_TEXT);
    let interface1: usize = 0x1234;

    let handle1 = db.install_protocol_interface(None, guid1, interface1).unwrap();
    let handle2 = db.install_protocol_interface(None, guid1, interface1).unwrap();
    let handle3 = db.install_protocol_interface(None, guid1, interface1).unwrap();
    let handle4 = db.install_protocol_interface(None, guid1, interface1).unwrap();

    // Adding a usage BY_CHILD_CONTROLLER succeeds.
    db.add_protocol_usage(handle1, guid1, Some(handle2), Some(handle3), OPEN_PROTOCOL_BY_CHILD_CONTROLLER).unwrap();
    let protocol_user_list = usage_of(&db, handle1, guid1);
    assert_eq!(1, protocol_user_list.len());
    assert_eq!(1, protocol_user_list[0].open_count);

    // BY_CHILD_CONTROLLER fails if agent and controller are not given.
    let result = db.add_protocol_usage(handle1, guid1, None, None, OPEN_PROTOCOL_BY_CHILD_CONTROLLER);
    assert_eq!(result, Err(EfiError::InvalidParameter));
    let protocol_user_list = usage_of(&db, handle1, guid1);
    assert_eq!(1, protocol_user_list.len());
    assert_eq!(1, protocol_user_list[0].open_count);

    // BY_CHILD_CONTROLLER fails if the controller is the handle itself.
    let result = db.add_protocol_usage(handle1, guid1, Some(handle2), Some(handle1), OPEN_PROTOCOL_BY_CHILD_CONTROLLER);
    assert_eq!(result, Err(EfiError::InvalidParameter));
    let protocol_user_list = usage_of(&db, handle1, guid1);
    assert_eq!(1, protocol_user_list.len());
    assert_eq!(1, protocol_user_list[0].open_count);

    // BY_CHILD_CONTROLLER succeeds even if another agent has the protocol open exclusively.
    db.add_protocol_usage(handle4, guid1, Some(handle2), Some(handle1), OPEN_PROTOCOL_EXCLUSIVE).unwrap();
    let protocol_user_list = usage_of(&db, handle4, guid1);
    assert_eq!(1, protocol_user_list.len());
    assert_eq!(1, protocol_user_list[0].open_count);
    assert_eq!(OPEN_PROTOCOL_EXCLUSIVE, protocol_user_list[0].attributes);

    db.add_protocol_usage(handle4, guid1, Some(handle2), Some(handle3), OPEN_PROTOCOL_BY_CHILD_CONTROLLER).unwrap();
    let protocol_user_list = usage_of(&db, handle4, guid1);
    assert_eq!(2, protocol_user_list.len());
    assert_eq!(1, protocol_user_list[0].open_count);
    assert_eq!(1, protocol_user_list[1].open_count);
    assert_eq!(OPEN_PROTOCOL_EXCLUSIVE, protocol_user_list[0].attributes);
    assert_eq!(OPEN_PROTOCOL_BY_CHILD_CONTROLLER, protocol_user_list[1].attributes);
}

fn test_driver_and_exclusive_protocol_usage(test_attributes: u32) {
    let mut db = ProtocolDb::new();
    let guid1 = pdb_guid(GUID1_TEXT);
    let interface1: usize = 0x1234;

    let handle1 = db.install_protocol_interface(None, guid1, interface1).unwrap();
    let handle2 = db.install_protocol_interface(None, guid1, interface1).unwrap();
    let handle3 = db.install_protocol_interface(None, guid1, interface1).unwrap();
    let handle4 = db.install_protocol_interface(None, guid1, interface1).unwrap();

    // A usage BY_DRIVER succeeds when no other usage is recorded.
    db.add_protocol_usage(handle1, guid1, Some(handle2), Some(handle3), test_attributes).unwrap();
    let protocol_user_list = usage_of(&db, handle1, guid1);
    assert_eq!(1, protocol_user_list.len());
    assert_eq!(1, protocol_user_list[0].open_count);
    assert_eq!(test_attributes, protocol_user_list[0].attributes);

    // The same usage again gives ALREADY_STARTED if it was opened BY_DRIVER.
    if (test_attributes & OPEN_PROTOCOL_BY_DRIVER) != 0 {
        let result = db.add_protocol_usage(handle1, guid1, Some(handle2), Some(handle3), test_attributes);
        assert_eq!(result, Err(EfiError::AlreadyStarted));
        let protocol_user_list = usage_of(&db, handle1, guid1);
        assert_eq!(1, protocol_user_list.len());
        assert_eq!(1, protocol_user_list[0].open_count);
        assert_eq!(test_attributes, protocol_user_list[0].attributes);
    }

    // Another agent BY_DRIVER on the same handle gives ACCESS_DENIED.
    let result = db.add_protocol_usage(handle1, guid1, Some(handle4), Some(handle3), OPEN_PROTOCOL_BY_DRIVER);
    assert_eq!(result, Err(EfiError::AccessDenied));
    let protocol_user_list = usage_of(&db, handle1, guid1);
    assert_eq!(1, protocol_user_list.len());
    assert_eq!(1, protocol_user_list[0].open_count);
    assert_eq!(test_attributes, protocol_user_list[0].attributes);

    // Another agent EXCLUSIVE gives ACCESS_DENIED.
    let result = db.add_protocol_usage(handle1, guid1, Some(handle4), Some(handle3), OPEN_PROTOCOL_EXCLUSIVE);
    assert_eq!(result, Err(EfiError::AccessDenied));
    let protocol_user_list = usage_of(&db, handle1, guid1);
    assert_eq!(1, protocol_user_list.len());
    assert_eq!(1, protocol_user_list[0].open_count);
    assert_eq!(test_attributes, protocol_user_list[0].attributes);

    // A usage BY_CHILD_CONTROLLER adds a new record.
    db.add_protocol_usage(handle1, guid1, Some(handle4), Some(handle3), OPEN_PROTOCOL_BY_CHILD_CONTROLLER).unwrap();
    let protocol_user_list = usage_of(&db, handle1, guid1);
    assert_eq!(2, protocol_user_list.len());
    assert_eq!(test_attributes, protocol_user_list[0].attributes);
    assert_eq!(1, protocol_user_list[0].open_count);
    assert_eq!(OPEN_PROTOCOL_BY_CHILD_CONTROLLER, protocol_user_list[1].attributes);
    assert_eq!(1, protocol_user_list[1].open_count);
}

#[test]
fn add_protocol_usage_by_driver_and_exclusive() {
    for test_attributes in [OPEN_PROTOCOL_BY_DRIVER, OPEN_PROTOCOL_EXCLUSIVE, OPEN_PROTOCOL_BY_DRIVER | OPEN_PROTOCOL_EXCLUSIVE]
    {
        test_driver_and_exclusive_protocol_usage(test_attributes);
    }
}

fn test_handle_get_or_test_protocol_usage(test_attributes: u32) {
    let mut db = ProtocolDb::new();
    let guid1 = pdb_guid(GUID1_TEXT);
    let interface1: usize = 0x1234;

    let handle1 = db.install_protocol_interface(None, guid1, interface1).unwrap();
    let handle2 = db.install_protocol_interface(None, guid1, interface1).unwrap();
    let handle3 = db.install_protocol_interface(None, guid1, interface1).unwrap();
    let handle4 = db.install_protocol_interface(None, guid1, interface1).unwrap();

    // A usage succeeds when no other usage is recorded.
    db.add_protocol_usage(handle1, guid1, Some(handle2), Some(handle3), test_attributes).unwrap();
    let protocol_user_list = usage_of(&db, handle1, guid1);
    assert_eq!(1, protocol_user_list.len());
    assert_eq!(1, protocol_user_list[0].open_count);
    assert_eq!(test_attributes, protocol_user_list[0].attributes);

    // Without an agent it succeeds, and no record is added.
    db.add_protocol_usage(handle1, guid1, None, Some(handle3), test_attributes).unwrap();
    let protocol_user_list = usage_of(&db, handle1, guid1);
    assert_eq!(1, protocol_user_list.len());
    assert_eq!(1, protocol_user_list[0].open_count);
    assert_eq!(test_attributes, protocol_user_list[0].attributes);

    // Without agent and controller it succeeds, and no record is added.
    db.add_protocol_usage(handle1, guid1, None, None, test_attributes).unwrap();
    let protocol_user_list = usage_of(&db, handle1, guid1);
    assert_eq!(1, protocol_user_list.len());
    assert_eq!(1, protocol_user_list[0].open_count);
    assert_eq!(test_attributes, protocol_user_list[0].attributes);

    // Without a controller it succeeds, and a record is added.
    db.add_protocol_usage(handle1, guid1, Some(handle2), None, test_attributes).unwrap();
    let protocol_user_list = usage_of(&db, handle1, guid1);
    assert_eq!(2, protocol_user_list.len());
    assert_eq!(1, protocol_user_list[0].open_count);
    assert_eq!(test_attributes, protocol_user_list[0].attributes);
    assert_eq!(1, protocol_user_list[1].open_count);
    assert_eq!(test_attributes, protocol_user_list[1].attributes);

    // A BY_DRIVER_EXCLUSIVE usage for testing.
    db.add_protocol_usage(handle4, guid1, Some(handle2), Some(handle3), OPEN_PROTOCOL_BY_DRIVER | OPEN_PROTOCOL_EXCLUSIVE)
        .unwrap();

    // A usage succeeds though the handle is open BY_DRIVER_EXCLUSIVE.
    db.add_protocol_usage(handle4, guid1, Some(handle2), None, test_attributes).unwrap();
    let protocol_user_list = usage_of(&db, handle1, guid1);
    assert_eq!(2, protocol_user_list.len());
    assert_eq!(1, protocol_user_list[1].open_count);
    assert_eq!(test_attributes, protocol_user_list[1].attributes);
}

#[test]
fn add_protocol_usage_by_handle_get_or_test() {
    for test_attributes in [OPEN_PROTOCOL_BY_HANDLE_PROTOCOL, OPEN_PROTOCOL_GET_PROTOCOL, OPEN_PROTOCOL_TEST_PROTOCOL] {
        test_handle_get_or_test_protocol_usage(test_attributes);
    }
}

#[test]
fn remove_protocol_usage_should_succeed_regardless_of_attributes() {
    let mut db = ProtocolDb::new();
    let guid1 = pdb_guid(GUID1_TEXT);
    let interface1: usize = 0x1234;

    let agent = db.install_protocol_interface(None, guid1, interface1).unwrap();
    let controller = db.install_protocol_interface(None, guid1, interface1).unwrap();

    for attributes in [
        OPEN_PROTOCOL_BY_CHILD_CONTROLLER,
        OPEN_PROTOCOL_BY_DRIVER,
        OPEN_PROTOCOL_BY_HANDLE_PROTOCOL,
        OPEN_PROTOCOL_EXCLUSIVE,
        OPEN_PROTOCOL_BY_DRIVER | OPEN_PROTOCOL_EXCLUSIVE,
        OPEN_PROTOCOL_GET_PROTOCOL,
        OPEN_PROTOCOL_TEST_PROTOCOL,
    ] {
        let handle = db.install_protocol_interface(None, guid1, interface1).unwrap();
        db.add_protocol_usage(handle, guid1, Some(agent), Some(controller), attributes).unwrap();
        db.remove_protocol_usage(handle, guid1, Some(agent), Some(controller)).unwrap();
        let protocol_user_list = usage_of(&db, handle, guid1);
        assert_eq!(0, protocol_user_list.len());
    }
}

#[test]
fn remove_protocol_usage_should_return_not_found_if_usage_not_found() {
    let mut db = ProtocolDb::new();
    let guid1 = pdb_guid(GUID1_TEXT);
    let interface1: usize = 0x1234;

    let handle1 = db.install_protocol_interface(None, guid1, interface1).unwrap();
    let handle2 = db.install_protocol_interface(None, guid1, interface1).unwrap();
    let handle3 = db.install_protocol_interface(None, guid1, interface1).unwrap();

    db.add_protocol_usage(handle1, guid1, Some(handle2), Some(handle3), OPEN_PROTOCOL_BY_DRIVER).unwrap();

    let result = db.remove_protocol_usage(handle1, guid1, Some(handle3), Some(handle2));
    assert_eq!(result, Err(EfiError::NotFound));
    assert_eq!(1, usage_of(&db, handle1, guid1).len());

    let result = db.remove_protocol_usage(handle1, guid1, None, Some(handle3));
    assert_eq!(result, Err(EfiError::NotFound));
    assert_eq!(1, usage_of(&db, handle1, guid1).len());

    let result = db.remove_protocol_usage(handle1, guid1, Some(handle2), None);
    assert_eq!(result, Err(EfiError::NotFound));
    assert_eq!(1, usage_of(&db, handle1, guid1).len());

    let result = db.remove_protocol_usage(handle1, guid1, None, None);
    assert_eq!(result, Err(EfiError::NotFound));
    assert_eq!(1, usage_of(&db, handle1, guid1).len());
}

#[test]
fn add_protocol_usage_should_succeed_after_remove_protocol_usage() {
    let mut db = ProtocolDb::new();
    let guid1 = pdb_guid(GUID1_TEXT);
    let interface1: usize = 0x1234;

    let handle1 = db.install_protocol_interface(None, guid1, interface1).unwrap();
    let handle2 = db.install_protocol_interface(None, guid1, interface1).unwrap();
    let handle3 = db.install_protocol_interface(None, guid1, interface1).unwrap();
    let handle4 = db.install_protocol_interface(None, guid1, interface1).unwrap();

    db.add_protocol_usage(handle1, guid1, Some(handle2), Some(handle3), OPEN_PROTOCOL_BY_DRIVER).unwrap();

    // Another agent BY_DRIVER is refused.
    assert_eq!(
        db.add_protocol_usage(handle1, guid1, Some(handle4), Some(handle3), OPEN_PROTOCOL_BY_DRIVER),
        Err(EfiError::AccessDenied)
    );

    db.remove_protocol_usage(handle1, guid1, Some(handle2), Some(handle3)).unwrap();

    // Once the first is removed, it succeeds.
    assert_eq!(db.add_protocol_usage(handle1, guid1, Some(handle4), Some(handle3), OPEN_PROTOCOL_BY_DRIVER), Ok(()));
}

#[test]
fn get_open_protocol_information_returns_information() {
    let mut db = ProtocolDb::new();
    let guid1 = pdb_guid(GUID1_TEXT);
    let interface1: usize = 0x1234;

    let attributes_list = [
        OPEN_PROTOCOL_BY_DRIVER | OPEN_PROTOCOL_EXCLUSIVE,
        OPEN_PROTOCOL_BY_CHILD_CONTROLLER,
        OPEN_PROTOCOL_BY_HANDLE_PROTOCOL,
        OPEN_PROTOCOL_GET_PROTOCOL,
        OPEN_PROTOCOL_TEST_PROTOCOL,
    ];

    let handle = db.install_protocol_interface(None, guid1, interface1).unwrap();
    let mut test_info = Vec::new();
    for attributes in attributes_list {
        let agent = db.install_protocol_interface(None, guid1, interface1).unwrap();
        let controller = db.install_protocol_interface(None, guid1, interface1).unwrap();
        test_info.push((Some(agent), Some(controller), attributes));
        db.add_protocol_usage(handle, guid1, Some(agent), Some(controller), attributes).unwrap();
    }

    let open_protocol_info_list = db.get_open_protocol_information(handle, guid1).unwrap();
    assert_eq!(attributes_list.len(), test_info.len());
    assert_eq!(attributes_list.len(), open_protocol_info_list.len());
    for idx in 0..attributes_list.len() {
        assert_eq!(test_info[idx].0, open_protocol_info_list[idx].agent_handle);
        assert_eq!(test_info[idx].1, open_protocol_info_list[idx].controller_handle);
        assert_eq!(test_info[idx].2, open_protocol_info_list[idx].attributes);
        assert_eq!(1, open_protocol_info_list[idx].open_count);
    }
}

#[test]
fn get_open_protocol_information_should_return_not_found_if_handle_or_protocol_not_present() {
    let mut db = ProtocolDb::new();
    let guid1 = pdb_guid(GUID1_TEXT);
    let interface1: usize = 0x1234;
    let guid2 = pdb_guid(GUID4_TEXT);
    let interface2: usize = 0x4321;

    let handle = db.install_protocol_interface(None, guid1, interface1).unwrap();
    let handle2 = db.install_protocol_interface(None, guid2, interface2).unwrap();
    let agent = db.install_protocol_interface(None, guid1, interface1).unwrap();
    let controller = db.install_protocol_interface(None, guid1, interface1).unwrap();

    db.add_protocol_usage(handle, guid1, Some(agent), Some(controller), OPEN_PROTOCOL_BY_DRIVER).unwrap();

    let result = db.get_open_protocol_information(handle, guid2);
    assert_eq!(result, Err(EfiError::NotFound));

    let result = db.get_open_protocol_information(handle2, guid1);
    assert_eq!(result, Err(EfiError::NotFound));
}

#[test]
fn to_efi_open_protocol_should_match_source_open_protocol_information_entry() {
    let mut db = ProtocolDb::new();
    let guid1 = pdb_guid(GUID1_TEXT);
    let interface1: usize = 0x1234;

    let handle = db.install_protocol_interface(None, guid1, interface1).unwrap();
    let agent = db.install_protocol_interface(None, guid1, interface1).unwrap();
    let controller = db.install_protocol_interface(None, guid1, interface1).unwrap();

    db.add_protocol_usage(handle, guid1, Some(agent), Some(controller), OPEN_PROTOCOL_BY_DRIVER).unwrap();

    for info in db.get_open_protocol_information(handle, guid1).unwrap() {
        let efi_info = info.to_efi_open_protocol();
        assert_eq!(efi_info.agent_handle, info.agent_handle.unwrap());
        assert_eq!(efi_info.controller_handle, info.controller_handle.unwrap());
        assert_eq!(efi_info.attributes, info.attributes);
        assert_eq!(efi_info.open_count, info.open_count);
    }
}

#[test]
fn get_interface_for_handle_should_return_the_interface() {
    let mut db = ProtocolDb::new();
    let guid1 = pdb_guid(GUID1_TEXT);
    let interface1: usize = 0x1234;

    let handle = db.install_protocol_interface(None, guid1, interface1).unwrap();

    let returned_iface = db.get_interface_for_handle(handle, guid1).unwrap();
    assert_eq!(interface1, returned_iface);
}

#[test]
fn get_protocols_on_handle_should_return_protocols_on_handle() {
    let mut db = ProtocolDb::new();
    let guid1 = pdb_guid(GUID1_TEXT);
    let interface1: usize = 0x1234;
    let guid2 = pdb_guid(GUID4_TEXT);
    let interface2: usize = 0x4321;

    let handle = db.install_protocol_interface(None, guid1, interface1).unwrap();
    db.install_protocol_interface(Some(handle), guid2, interface2).unwrap();

    let protocol_list = db.get_protocols_on_handle(handle).unwrap();
    assert_eq!(protocol_list.len(), 2);
    assert!(protocol_list.contains(&guid1));
    assert!(protocol_list.contains(&guid2));
}

#[test]
fn locate_protocol_should_return_protocol() {
    let mut db = ProtocolDb::new();
    let guid1 = pdb_guid(GUID1_TEXT);
    let interface1: usize = 0x1234;
    let guid2 = pdb_guid(GUID4_TEXT);
    let interface2: usize = 0x4321;

    db.install_protocol_interface(None, guid1, interface1).unwrap();
    db.install_protocol_interface(None, guid2, interface2).unwrap();

    assert_eq!(db.locate_protocol(guid1), Ok(interface1));
    assert_eq!(db.locate_protocol(guid2), Ok(interface2));
}

#[test]
fn installing_a_protocol_twice_on_a_handle_is_refused() {
    let mut db = ProtocolDb::new();
    let guid1 = pdb_guid(GUID1_TEXT);
    let handle = db.install_protocol_interface(None, guid1, 0x1234).unwrap();
    assert_eq!(db.install_protocol_interface(Some(handle), guid1, 0x5678), Err(EfiError::InvalidParameter));
    assert_eq!(db.install_protocol_interface(Some(handle + 7), guid1, 0x5678), Err(EfiError::InvalidParameter));
}

#[test]
fn uninstall_after_install_leaves_the_other_protocols() {
    let mut db = ProtocolDb::new();
    let guid1 = pdb_guid(GUID1_TEXT);
    let guid2 = pdb_guid(GUID2_TEXT);
    let handle = db.install_protocol_interface(None, guid1, 0x1234).unwrap();
    db.install_protocol_interface(Some(handle), guid2, 0x4321).unwrap();
    db.uninstall_protocol_interface(handle, guid2, 0x4321).unwrap();
    assert_eq!(db.get_protocols_on_handle(handle).unwrap(), vec![guid1]);
    assert_eq!(db.locate_protocol(guid2), Err(EfiError::NotFound));
}

#[test]
fn usage_errors_for_bad_handles_and_missing_protocols() {
    let mut db = ProtocolDb::new();
    let guid1 = pdb_guid(GUID1_TEXT);
    let guid2 = pdb_guid(GUID2_TEXT);
    let handle = db.install_protocol_interface(None, guid1, 0x1234).unwrap();
    assert_eq!(db.add_protocol_usage(handle + 1, guid1, None, None, OPEN_PROTOCOL_GET_PROTOCOL), Err(EfiError::InvalidParameter));
    assert_eq!(db.add_protocol_usage(handle, guid2, None, None, OPEN_PROTOCOL_GET_PROTOCOL), Err(EfiError::Unsupported));
    assert_eq!(db.add_protocol_usage(handle, guid1, None, None, 0x40), Err(EfiError::InvalidParameter));
    assert_eq!(db.get_open_protocol_information(handle + 1, guid1), Err(EfiError::InvalidParameter));
    assert_eq!(db.get_protocols_on_handle(0), Err(EfiError::InvalidParameter));
}
