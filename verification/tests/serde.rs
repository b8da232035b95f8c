use unix_ipc::serde::{
    deserialize, is_ipc_mode, serialize, Handle, HandleError, HandleRef, IpcFds,
};

/// Something that owns a descriptor.
#[derive(Debug, PartialEq)]
struct File(i32);

#[test]
fn serde_test_basic() {
    let mut ipc = IpcFds::new();
    let mut handle = Handle::from(File(21));

    ipc.enter_ipc_mode(&Vec::new());
    let idx = handle.serialize(&mut ipc, |f: File| f.0).unwrap();
    let encoded: Result<Vec<u8>, ()> = Ok(bincode::serialize(&idx).unwrap());
    let (bytes, fds) = serialize(&mut ipc, encoded).unwrap();
    assert!(!is_ipc_mode(&ipc));
    assert!(handle.is_moved());
    assert_eq!(bytes, [0, 0, 0, 0]);
    assert_eq!(fds, [21]);

    ipc.enter_ipc_mode(&fds);
    let idx: u32 = bincode::deserialize(&bytes).unwrap();
    let decoded = Handle::deserialize(&ipc, idx, File);
    let f2 = deserialize(&mut ipc, decoded).unwrap();
    assert!(!is_ipc_mode(&ipc));
    assert_eq!(f2.into_inner(), File(21));
}

#[test]
fn outside_ipc_mode_handles_do_not_serialize() {
    let mut ipc = IpcFds::new();
    let mut handle = Handle::new(File(1));
    assert_eq!(
        handle.serialize(&mut ipc, |f: File| f.0),
        Err(HandleError::SerializeOutsideIpc)
    );
    assert!(handle.is_moved());
    assert_eq!(
        HandleRef(1).serialize(&mut ipc),
        Err(HandleError::SerializeOutsideIpc)
    );
    assert_eq!(
        Handle::deserialize(&ipc, 0, File).err(),
        Some(HandleError::DeserializeOutsideIpc)
    );
    assert_eq!(ipc.lookup_fd(0), None);
    assert_eq!(ipc.leave_ipc_mode(), Vec::<i32>::new());
}

#[test]
fn unknown_index_is_an_error() {
    let mut ipc = IpcFds::new();
    ipc.enter_ipc_mode(&vec![5]);
    assert_eq!(
        Handle::deserialize(&ipc, 1, File).err(),
        Some(HandleError::FdNotFound)
    );
    assert_eq!(Handle::deserialize(&ipc, 0, File).unwrap().into_inner(), File(5));
}

#[test]
fn handle_errors_describe_themselves() {
    assert_eq!(
        HandleError::SerializeOutsideIpc.message(),
        "can only serialize in ipc mode"
    );
    assert_eq!(
        HandleError::DeserializeOutsideIpc.message(),
        "can only deserialize in ipc mode"
    );
    assert_eq!(HandleError::FdNotFound.message(), "fd not found in mapping");
}

#[test]
fn ipc_modes_nest() {
    let mut ipc = IpcFds::new();
    ipc.enter_ipc_mode(&Vec::new());
    assert_eq!(HandleRef(7).serialize(&mut ipc), Ok(0));
    ipc.enter_ipc_mode(&vec![1, 2]);
    assert_eq!(HandleRef(8).serialize(&mut ipc), Ok(2));
    assert_eq!(ipc.lookup_fd(0), Some(1));
    assert_eq!(ipc.leave_ipc_mode(), [1, 2, 8]);
    assert!(is_ipc_mode(&ipc));
    assert_eq!(ipc.lookup_fd(0), Some(7));
    assert_eq!(ipc.leave_ipc_mode(), [7]);
    assert!(!is_ipc_mode(&ipc));
}

#[test]
fn failures_leave_ipc_mode_too() {
    let mut ipc = IpcFds::new();
    ipc.enter_ipc_mode(&vec![1]);
    let failed: Result<Vec<u8>, &str> = Err("no");
    assert_eq!(serialize(&mut ipc, failed), Err("no"));
    assert!(!is_ipc_mode(&ipc));
    ipc.enter_ipc_mode(&vec![1]);
    assert_eq!(deserialize(&mut ipc, Err::<u8, &str>("bad")), Err("bad"));
    assert!(!is_ipc_mode(&ipc));
}

#[test]
fn the_value_comes_out_of_its_handle() {
    let mut handle = Handle::new(File(3));
    assert!(!handle.is_moved());
    assert_eq!(handle.extract_raw_fd(|f: File| f.0), 3);
    assert!(handle.is_moved());
    assert_eq!(Handle::new(File(4)).into_inner(), File(4));
}
