use page_store::error::StorageError;
use page_store::storage::arena::PageArena;
use page_store::storage::disk::{DiskManager, IoOutcome, TransferStep, MAX_FILE_PAGE};
use page_store::storage::PAGE_SIZE;

#[test]
fn file_size_gives_the_next_page() {
    assert_eq!(PAGE_SIZE, 4096);
    assert_eq!(DiskManager::open(0).next_page_id(), 0);
    assert_eq!(DiskManager::open(4095).next_page_id(), 0);
    assert_eq!(DiskManager::open(4096).next_page_id(), 1);
    assert_eq!(DiskManager::open(3 * 4096 + 17).next_page_id(), 3);
}

#[test]
fn allocation_extends_the_file() {
    let mut disk = DiskManager::open(2 * 4096);
    assert_eq!(disk.allocate_page(), 2);
    assert_eq!(disk.file_len(), 3 * 4096);
    assert_eq!(disk.allocate_page(), 3);
    assert_eq!(disk.file_len(), 4 * 4096);
}

#[test]
fn last_page_of_a_file_can_be_addressed() {
    let disk = DiskManager::open(0);
    let transfer = disk.read_page(MAX_FILE_PAGE);
    assert_eq!(transfer.offset(), u64::MAX - 4095);
}

#[test]
fn read_goes_on_after_a_partial_read() {
    let disk = DiskManager::open(8 * 4096);
    let mut transfer = disk.read_page(5);
    assert_eq!(transfer.offset(), 20480);
    assert_eq!(transfer.remaining(), 4096);
    assert_eq!(transfer.after_read(IoOutcome::Bytes(1000)), Ok(TransferStep::Again));
    assert_eq!(transfer.done(), 1000);
    assert_eq!(transfer.offset(), 21480);
    assert_eq!(transfer.remaining(), 3096);
    assert_eq!(transfer.after_read(IoOutcome::Interrupted), Ok(TransferStep::Again));
    assert_eq!(transfer.done(), 1000);
    assert_eq!(transfer.after_read(IoOutcome::Bytes(3096)), Ok(TransferStep::Complete));
    assert_eq!(transfer.done(), 4096);
}

#[test]
fn read_past_the_end_is_an_error() {
    let disk = DiskManager::open(0);
    let mut transfer = disk.read_page(0);
    assert_eq!(transfer.after_read(IoOutcome::Bytes(10)), Ok(TransferStep::Again));
    assert_eq!(transfer.after_read(IoOutcome::Bytes(0)), Err(StorageError::UnexpectedEof));
}

#[test]
fn failed_call_ends_a_transfer() {
    let disk = DiskManager::open(0);
    assert_eq!(disk.read_page(0).after_read(IoOutcome::Failed), Ok(TransferStep::Failed));
    assert_eq!(disk.write_page(0).after_write(IoOutcome::Failed), TransferStep::Failed);
}

#[test]
fn write_that_moves_nothing_is_repeated() {
    let disk = DiskManager::open(0);
    let mut transfer = disk.write_page(1);
    assert_eq!(transfer.offset(), 4096);
    assert_eq!(transfer.after_write(IoOutcome::Bytes(0)), TransferStep::Again);
    assert_eq!(transfer.after_write(IoOutcome::Interrupted), TransferStep::Again);
    assert_eq!(transfer.after_write(IoOutcome::Bytes(4095)), TransferStep::Again);
    assert_eq!(transfer.offset(), 8191);
    assert_eq!(transfer.remaining(), 1);
    assert_eq!(transfer.after_write(IoOutcome::Bytes(1)), TransferStep::Complete);
}

#[test]
fn transfer_moves_every_byte_once() {
    let disk = DiskManager::open(0);
    let mut moved = vec![0u32; 4096];
    let mut transfer = disk.read_page(0);
    let mut chunk = 1;
    loop {
        let n = if chunk < transfer.remaining() { chunk } else { transfer.remaining() };
        for byte in transfer.done()..transfer.done() + n {
            moved[byte] += 1;
        }
        match transfer.after_read(IoOutcome::Bytes(n)) {
            Ok(TransferStep::Complete) => break,
            Ok(TransferStep::Again) => chunk *= 2,
            _ => panic!("the file does not end here"),
        }
    }
    assert!(moved.iter().all(|&count| count == 1));
}

#[test]
fn pages_of_a_file_are_disjoint() {
    let disk = DiskManager::open(0);
    assert_eq!(disk.read_page(3).offset() + 4096, disk.read_page(4).offset());
}

#[test]
fn frames_of_an_arena_are_disjoint() {
    let arena = PageArena::new(16);
    assert_eq!(arena.frame_count(), 16);
    assert_eq!(arena.len(), 65536);
    assert_eq!(arena.frame_ptr(0), 0);
    assert_eq!(arena.frame_ptr(3), 12288);
    for frame in 1..16 {
        assert_eq!(arena.frame_ptr(frame - 1) + PAGE_SIZE, arena.frame_ptr(frame));
    }
    assert_eq!(arena.frame_ptr(15) + PAGE_SIZE, arena.len());
}
