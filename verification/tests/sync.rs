use vpp_plugin::vlib::main::sync::BarrierRwLock;

#[test]
fn write_guard() {
    let mut lock = BarrierRwLock::new("value".to_string());
    let guard = lock.write();
    *lock.get_mut() = "new value".to_string();
    lock.write_unlock(guard);
    let guard = lock.read(0);
    assert_eq!(*lock.data(), "new value");
    lock.read_unlock(guard);
}

#[test]
fn misc() {
    let mut lock: BarrierRwLock<String> = BarrierRwLock::default();

    let guard = lock.write();
    assert_eq!(*lock.data(), "");
    lock.write_unlock(guard);

    *lock.get_mut() = "value".to_string();

    let guard = lock.write();
    assert_eq!(lock.data().to_string(), "value");
    assert_eq!(format!("{:?}", lock.data()), "\"value\"");
    lock.write_unlock(guard);
    let guard = lock.read(0);
    assert_eq!(lock.data().to_string(), "value");
    assert_eq!(format!("{:?}", lock.data()), "\"value\"");
    lock.read_unlock(guard);

    assert_eq!(lock.data_ptr(), "value");

    assert_eq!(lock.into_inner(), "value");
}

#[test]
fn concurrent_reads() {
    let mut lock = BarrierRwLock::new("value".to_string());
    for thread_index in [0u32, 1] {
        for _ in 0..1000 {
            let guard = lock.read(thread_index);
            assert_eq!(*lock.data(), "value");
            lock.read_unlock(guard);
        }
    }
}

#[test]
fn worker_reads_alongside_write() {
    // Worker threads cannot run while the barrier is held, so their reads are never counted
    let mut lock = BarrierRwLock::new(7u32);
    let worker_guard = lock.read(1);
    let guard = lock.write();
    *lock.get_mut() = 8;
    lock.write_unlock(guard);
    lock.read_unlock(worker_guard);
    let main_guard = lock.read(0);
    let second_guard = lock.read(0);
    assert_eq!(*lock.data(), 8);
    lock.read_unlock(second_guard);
    lock.read_unlock(main_guard);
    let guard = lock.write();
    lock.write_unlock(guard);
}
