use page_store::error::{ErrorKind, StorageError};

#[test]
fn every_error_has_its_kind_and_text() {
    let all = [
        (StorageError::MappedFrameIsFree, ErrorKind::Other, "page table 指向 FREE frame"),
        (StorageError::PinOverflow, ErrorKind::Other, "frame pin_count overflow"),
        (StorageError::PageLeftFrame, ErrorKind::NotFound, "unpin 时 page 已经不在这个 frame 中"),
        (StorageError::UnpinNotReady, ErrorKind::Other, "只能 unpin READY frame"),
        (StorageError::NotPinned, ErrorKind::InvalidInput, "frame pin_count 已经为 0"),
        (StorageError::NoFrames, ErrorKind::InvalidInput, "BufferPool 至少需要一个 frame"),
        (StorageError::BadFrameId, ErrorKind::Other, "page table 包含非法 frame_id"),
        (StorageError::PageNotCached, ErrorKind::NotFound, "unpin 的 page 不在 BufferPool 中"),
        (StorageError::FreeListFrameInUse, ErrorKind::Other, "free list 中出现非 FREE frame"),
        (StorageError::NoVictim, ErrorKind::WouldBlock, "当前没有可淘汰的 frame"),
        (StorageError::VictimHasNoPage, ErrorKind::Other, "EVICTING frame 没有 page_id"),
        (StorageError::TableMismatch, ErrorKind::Other, "page table 与 FrameMeta 状态不一致"),
        (StorageError::LoadOwnerLost, ErrorKind::Other, "page load owner 状态丢失"),
        (StorageError::AlreadyPublished, ErrorKind::AlreadyExists, "page 在加载过程中被重复 publish"),
        (StorageError::DuplicatePage, ErrorKind::AlreadyExists, "page table 出现重复 page"),
        (StorageError::TableFull, ErrorKind::Other, "page table 已满"),
        (StorageError::InvalidPageType, ErrorKind::InvalidData, "B+ Tree page type 无效"),
        (
            StorageError::MultiLevelInsert,
            ErrorKind::Unsupported,
            "multi-level B+ Tree insert is not implemented yet",
        ),
        (StorageError::DuplicateKey, ErrorKind::AlreadyExists, "duplicate B+ Tree key"),
    ];
    for (error, kind, text) in all {
        assert_eq!(error.kind(), kind);
        assert_eq!(error.message(), Some(text));
    }
}

#[test]
fn early_end_of_file_has_no_text() {
    assert_eq!(StorageError::UnexpectedEof.kind(), ErrorKind::UnexpectedEof);
    assert_eq!(StorageError::UnexpectedEof.message(), None);
}
