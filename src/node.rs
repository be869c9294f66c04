//! Entries as a layer stores them, and the whiteout recognition rule.
use vstd::prelude::*;

verus! {

/// File type of a stored entry.
#[derive(Clone, Copy, Debug, PartialEq, Eq, Structural)]
pub enum FileKind {
    Regular,
    Directory,
    Symlink,
    CharDevice,
    Other,
}

/// Inode number carried by whiteout markers, which have no identity of their own.
pub const NO_INODE: u64 = 0;

/// Mode bits of a whiteout marker.
pub const WHITEOUT_MODE: u32 = 0o644;

/// What a directory entry of one layer resolves to. Names that share an
/// `ino` are hard links of one inode; a directory's `ino` is also the parent
/// id under which its children are stored.
pub struct Node {
    pub ino: u64,
    pub kind: FileKind,
    pub rdev: u64,
    pub mode: u32,
    /// File content for regular files, target for symlinks.
    pub data: String,
}

/// The mathematical value of a [`Node`].
pub ghost struct NodeView {
    pub ino: u64,
    pub kind: FileKind,
    pub rdev: u64,
    pub mode: u32,
    pub data: Seq<char>,
}

impl View for Node {
    type V = NodeView;

    open spec fn view(&self) -> NodeView {
        NodeView { ino: self.ino, kind: self.kind, rdev: self.rdev, mode: self.mode, data: self.data@ }
    }
}

/// The canonical whiteout test: a character device with device number zero.
pub open spec fn is_whiteout_spec(n: NodeView) -> bool {
    n.kind == FileKind::CharDevice && n.rdev == 0
}

pub open spec fn is_dir_spec(n: NodeView) -> bool {
    n.kind == FileKind::Directory
}

/// The marker that records a deleted name in the upper layer.
pub open spec fn whiteout_view() -> NodeView {
    NodeView { ino: NO_INODE, kind: FileKind::CharDevice, rdev: 0, mode: WHITEOUT_MODE, data: Seq::empty() }
}

impl Node {
    /// A regular file holding `data`.
    pub fn file(ino: u64, data: &str) -> (r: Node)
        ensures
            r.ino == ino,
            r.kind == FileKind::Regular,
            r.rdev == 0,
            r.mode == 0o644,
            r.data@ == data@,
    {
        Node { ino, kind: FileKind::Regular, rdev: 0, mode: 0o644, data: data.to_owned() }
    }

    /// An empty directory whose children are stored under `ino`.
    pub fn dir(ino: u64) -> (r: Node)
        ensures
            r.ino == ino,
            r.kind == FileKind::Directory,
            r.rdev == 0,
            r.mode == 0o755,
            r.data@ == Seq::<char>::empty(),
    {
        Node { ino, kind: FileKind::Directory, rdev: 0, mode: 0o755, data: String::new() }
    }

    /// A symbolic link pointing at `target`.
    pub fn symlink(ino: u64, target: &str) -> (r: Node)
        ensures
            r.ino == ino,
            r.kind == FileKind::Symlink,
            r.rdev == 0,
            r.mode == 0o777,
            r.data@ == target@,
    {
        Node { ino, kind: FileKind::Symlink, rdev: 0, mode: 0o777, data: target.to_owned() }
    }

    /// A whiteout marker: character device 0/0, mode 0o644.
    pub fn whiteout() -> (r: Node)
        ensures
            r@ == whiteout_view(),
    {
        let r = Node { ino: NO_INODE, kind: FileKind::CharDevice, rdev: 0, mode: WHITEOUT_MODE, data: String::new() };
        assert(r@.data =~= Seq::<char>::empty());
        r
    }

    pub fn is_whiteout(&self) -> (r: bool)
        ensures
            r == is_whiteout_spec(self@),
    {
        self.kind == FileKind::CharDevice && self.rdev == 0
    }

    pub fn is_dir(&self) -> (r: bool)
        ensures
            r == is_dir_spec(self@),
    {
        self.kind == FileKind::Directory
    }

    /// A field-by-field copy.
    pub fn copy(&self) -> (r: Node)
        ensures
            r@ == self@,
    {
        Node { ino: self.ino, kind: self.kind, rdev: self.rdev, mode: self.mode, data: self.data.clone() }
    }
}

} // verus!
