//! The errors of the storage engine.

use vstd::prelude::*;

verus! {

/// The broad class of an error, named after the matching kinds of `std::io`.
#[derive(Clone, Copy, Debug, PartialEq, Eq, Structural)]
pub enum ErrorKind {
    InvalidInput,
    InvalidData,
    NotFound,
    AlreadyExists,
    WouldBlock,
    UnexpectedEof,
    Unsupported,
    Other,
}

/// Everything that an operation of the engine can refuse to do.
#[derive(Clone, Copy, Debug, PartialEq, Eq, Structural)]
pub enum StorageError {
    /// The page table names a frame whose state is free.
    MappedFrameIsFree,
    /// One more pin would not fit into the pin counter.
    PinOverflow,
    /// The frame no longer holds the page that is to be unpinned.
    PageLeftFrame,
    /// Only a ready frame can be unpinned.
    UnpinNotReady,
    /// The frame has no pin to give back.
    NotPinned,
    /// A buffer pool needs at least one frame.
    NoFrames,
    /// The page table names a frame that does not exist.
    BadFrameId,
    /// The page to unpin is not in the buffer pool.
    PageNotCached,
    /// A frame on the free list is not free.
    FreeListFrameInUse,
    /// Every frame is pinned or busy.
    NoVictim,
    /// The frame to evict holds no page.
    VictimHasNoPage,
    /// The page table and the frame disagree.
    TableMismatch,
    /// The page is not registered as being loaded.
    LoadOwnerLost,
    /// The page appeared in the page table while it was being loaded.
    AlreadyPublished,
    /// The page table held the page already when it was entered.
    DuplicatePage,
    /// The page table has no room for another page.
    TableFull,
    /// The file ended inside a page.
    UnexpectedEof,
    /// The page is neither a leaf nor an internal node.
    InvalidPageType,
    /// The root is not a leaf.
    MultiLevelInsert,
    /// The key is in the tree already.
    DuplicateKey,
}

impl StorageError {
    /// The kind of each error.
    pub open spec fn spec_kind(self) -> ErrorKind {
        match self {
            StorageError::MappedFrameIsFree => ErrorKind::Other,
            StorageError::PinOverflow => ErrorKind::Other,
            StorageError::PageLeftFrame => ErrorKind::NotFound,
            StorageError::UnpinNotReady => ErrorKind::Other,
            StorageError::NotPinned => ErrorKind::InvalidInput,
            StorageError::NoFrames => ErrorKind::InvalidInput,
            StorageError::BadFrameId => ErrorKind::Other,
            StorageError::PageNotCached => ErrorKind::NotFound,
            StorageError::FreeListFrameInUse => ErrorKind::Other,
            StorageError::NoVictim => ErrorKind::WouldBlock,
            StorageError::VictimHasNoPage => ErrorKind::Other,
            StorageError::TableMismatch => ErrorKind::Other,
            StorageError::LoadOwnerLost => ErrorKind::Other,
            StorageError::AlreadyPublished => ErrorKind::AlreadyExists,
            StorageError::DuplicatePage => ErrorKind::AlreadyExists,
            StorageError::TableFull => ErrorKind::Other,
            StorageError::UnexpectedEof => ErrorKind::UnexpectedEof,
            StorageError::InvalidPageType => ErrorKind::InvalidData,
            StorageError::MultiLevelInsert => ErrorKind::Unsupported,
            StorageError::DuplicateKey => ErrorKind::AlreadyExists,
        }
    }

    /// The text of each error; an early end of file has none of its own.
    pub open spec fn spec_message(self) -> Option<&'static str> {
        match self {
            StorageError::MappedFrameIsFree => Some("page table 指向 FREE frame"),
            StorageError::PinOverflow => Some("frame pin_count overflow"),
            StorageError::PageLeftFrame => Some("unpin 时 page 已经不在这个 frame 中"),
            StorageError::UnpinNotReady => Some("只能 unpin READY frame"),
            StorageError::NotPinned => Some("frame pin_count 已经为 0"),
            StorageError::NoFrames => Some("BufferPool 至少需要一个 frame"),
            StorageError::BadFrameId => Some("page table 包含非法 frame_id"),
            StorageError::PageNotCached => Some("unpin 的 page 不在 BufferPool 中"),
            StorageError::FreeListFrameInUse => Some("free list 中出现非 FREE frame"),
            StorageError::NoVictim => Some("当前没有可淘汰的 frame"),
            StorageError::VictimHasNoPage => Some("EVICTING frame 没有 page_id"),
            StorageError::TableMismatch => Some("page table 与 FrameMeta 状态不一致"),
            StorageError::LoadOwnerLost => Some("page load owner 状态丢失"),
            StorageError::AlreadyPublished => Some("page 在加载过程中被重复 publish"),
            StorageError::DuplicatePage => Some("page table 出现重复 page"),
            StorageError::TableFull => Some("page table 已满"),
            StorageError::UnexpectedEof => None,
            StorageError::InvalidPageType => Some("B+ Tree page type 无效"),
            StorageError::MultiLevelInsert => Some(
                "multi-level B+ Tree insert is not implemented yet",
            ),
            StorageError::DuplicateKey => Some("duplicate B+ Tree key"),
        }
    }

    /// The kind of this error.
    pub fn kind(&self) -> (kind: ErrorKind)
        ensures
            kind == self.spec_kind(),
    {
        match self {
            StorageError::MappedFrameIsFree => ErrorKind::Other,
            StorageError::PinOverflow => ErrorKind::Other,
            StorageError::PageLeftFrame => ErrorKind::NotFound,
            StorageError::UnpinNotReady => ErrorKind::Other,
            StorageError::NotPinned => ErrorKind::InvalidInput,
            StorageError::NoFrames => ErrorKind::InvalidInput,
            StorageError::BadFrameId => ErrorKind::Other,
            StorageError::PageNotCached => ErrorKind::NotFound,
            StorageError::FreeListFrameInUse => ErrorKind::Other,
            StorageError::NoVictim => ErrorKind::WouldBlock,
            StorageError::VictimHasNoPage => ErrorKind::Other,
            StorageError::TableMismatch => ErrorKind::Other,
            StorageError::LoadOwnerLost => ErrorKind::Other,
            StorageError::AlreadyPublished => ErrorKind::AlreadyExists,
            StorageError::DuplicatePage => ErrorKind::AlreadyExists,
            StorageError::TableFull => ErrorKind::Other,
            StorageError::UnexpectedEof => ErrorKind::UnexpectedEof,
            StorageError::InvalidPageType => ErrorKind::InvalidData,
            StorageError::MultiLevelInsert => ErrorKind::Unsupported,
            StorageError::DuplicateKey => ErrorKind::AlreadyExists,
        }
    }

    /// The text of this error, where it has one.
    pub fn message(&self) -> (text: Option<&'static str>)
        ensures
            text is Some == self.spec_message() is Some,
            text is Some ==> text->0@ == self.spec_message()->0@,
    {
        match self {
            StorageError::MappedFrameIsFree => Some("page table 指向 FREE frame"),
            StorageError::PinOverflow => Some("frame pin_count overflow"),
            StorageError::PageLeftFrame => Some("unpin 时 page 已经不在这个 frame 中"),
            StorageError::UnpinNotReady => Some("只能 unpin READY frame"),
            StorageError::NotPinned => Some("frame pin_count 已经为 0"),
            StorageError::NoFrames => Some("BufferPool 至少需要一个 frame"),
            StorageError::BadFrameId => Some("page table 包含非法 frame_id"),
            StorageError::PageNotCached => Some("unpin 的 page 不在 BufferPool 中"),
            StorageError::FreeListFrameInUse => Some("free list 中出现非 FREE frame"),
            StorageError::NoVictim => Some("当前没有可淘汰的 frame"),
            StorageError::VictimHasNoPage => Some("EVICTING frame 没有 page_id"),
            StorageError::TableMismatch => Some("page table 与 FrameMeta 状态不一致"),
            StorageError::LoadOwnerLost => Some("page load owner 状态丢失"),
            StorageError::AlreadyPublished => Some("page 在加载过程中被重复 publish"),
            StorageError::DuplicatePage => Some("page table 出现重复 page"),
            StorageError::TableFull => Some("page table 已满"),
            StorageError::UnexpectedEof => None,
            StorageError::InvalidPageType => Some("B+ Tree page type 无效"),
            StorageError::MultiLevelInsert => Some(
                "multi-level B+ Tree insert is not implemented yet",
            ),
            StorageError::DuplicateKey => Some("duplicate B+ Tree key"),
        }
    }
}

} // verus!
