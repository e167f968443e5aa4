use lib::syscall::process::{
    page_chunks, sys_sbrk, sys_trace, time_val_from_us, user_page_writable, Chunk, PteFlags,
    TimeVal, TraceAction, PAGE_SIZE,
};

const RW_USER: PteFlags = PteFlags { valid: true, readable: true, writable: true, user: true };

#[test]
fn trace_read_byte() {
    assert_eq!(sys_trace(0, 0x1234, 0, Some(RW_USER)), TraceAction::ReadByte { offset: 0x234 });
}

#[test]
fn trace_read_needs_mapping_and_rights() {
    assert_eq!(sys_trace(0, 0x1234, 0, None), TraceAction::Fail);
    let kernel = PteFlags { user: false, ..RW_USER };
    assert_eq!(sys_trace(0, 0x1234, 0, Some(kernel)), TraceAction::Fail);
    let no_read = PteFlags { readable: false, ..RW_USER };
    assert_eq!(sys_trace(0, 0x1234, 0, Some(no_read)), TraceAction::Fail);
    let invalid = PteFlags { valid: false, ..RW_USER };
    assert_eq!(sys_trace(0, 0x1234, 0, Some(invalid)), TraceAction::Fail);
}

#[test]
fn trace_write_low_byte() {
    assert_eq!(
        sys_trace(1, 0x2fff, 0x1ab, Some(RW_USER)),
        TraceAction::WriteByte { offset: 0xfff, value: 0xab }
    );
    let read_only = PteFlags { writable: false, ..RW_USER };
    assert_eq!(sys_trace(1, 0x2fff, 7, Some(read_only)), TraceAction::Fail);
    assert_eq!(sys_trace(1, 0x2fff, 7, None), TraceAction::Fail);
}

#[test]
fn trace_syscall_count_and_unknown_request() {
    assert_eq!(sys_trace(2, 64, 0, None), TraceAction::SyscallCount { id: 64 });
    assert_eq!(sys_trace(3, 64, 0, Some(RW_USER)), TraceAction::Fail);
}

#[test]
fn writable_pages() {
    assert!(user_page_writable(RW_USER));
    assert!(!user_page_writable(PteFlags { user: false, ..RW_USER }));
    assert!(!user_page_writable(PteFlags { writable: false, ..RW_USER }));
}

#[test]
fn sbrk_result() {
    assert_eq!(sys_sbrk(Some(0x8000)), 0x8000);
    assert_eq!(sys_sbrk(None), -1);
}

#[test]
fn time_split() {
    assert_eq!(time_val_from_us(1_234_567), TimeVal { sec: 1, usec: 234_567 });
    assert_eq!(time_val_from_us(999_999), TimeVal { sec: 0, usec: 999_999 });
    assert_eq!(time_val_from_us(2_000_000), TimeVal { sec: 2, usec: 0 });
}

#[test]
fn chunks_within_one_page() {
    let cs = page_chunks(0x1000 + 8, 0x1000 + 24);
    assert_eq!(cs, vec![Chunk { va: 0x1008, page_offset: 8, src_offset: 0, len: 16 }]);
}

#[test]
fn chunks_across_a_page_boundary() {
    let start = 2 * PAGE_SIZE - 6;
    let cs = page_chunks(start, start + 16);
    assert_eq!(
        cs,
        vec![
            Chunk { va: start, page_offset: PAGE_SIZE - 6, src_offset: 0, len: 6 },
            Chunk { va: 2 * PAGE_SIZE, page_offset: 0, src_offset: 6, len: 10 },
        ]
    );
}

#[test]
fn chunks_of_empty_range() {
    assert!(page_chunks(100, 100).is_empty());
    assert!(page_chunks(200, 100).is_empty());
}
