//! UEFI device paths, held as the bytes of their nodes. Each node starts
//! with its type, its subtype and its length in bytes (two bytes, little
//! endian, counting those four header bytes); an end node closes the path.
use vstd::prelude::*;

verus! {

/// Node type of end nodes.
pub const TYPE_END: u8 = 0x7f;
/// Subtype of the end node that closes a whole device path.
pub const END_ENTIRE: u8 = 0xff;
/// Size of an end node.
pub const END_NODE_SIZE: usize = 4;

/// The length of the node that starts at `off`.
pub open spec fn node_len(s: Seq<u8>, off: int) -> int {
    s[off + 2] + s[off + 3] * 256
}

/// The node at `off` has the end type.
pub open spec fn is_end(s: Seq<u8>, off: int) -> bool {
    s[off] == TYPE_END
}

/// The node at `off` ends the whole device path.
pub open spec fn is_end_entire(s: Seq<u8>, off: int) -> bool {
    s[off] == TYPE_END && s[off + 1] == END_ENTIRE
}

/// The node at `off` lies in `s` and is at least as long as its header.
pub open spec fn node_ok(s: Seq<u8>, off: int) -> bool {
    0 <= off && off + 4 <= s.len() && node_len(s, off) >= 4 && off + node_len(s, off) <= s.len()
}

/// From `off` on, `s` holds well-formed nodes up to an end node.
pub open spec fn path_ok(s: Seq<u8>, off: int) -> bool
    decreases s.len() - off,
{
    if !node_ok(s, off) {
        false
    } else if is_end(s, off) {
        true
    } else {
        path_ok(s, off + node_len(s, off))
    }
}

/// From `off` on, `s` holds well-formed nodes up to an end node of the whole path.
pub open spec fn entire_path_ok(s: Seq<u8>, off: int) -> bool
    decreases s.len() - off,
{
    if !node_ok(s, off) {
        false
    } else if is_end_entire(s, off) {
        true
    } else {
        entire_path_ok(s, off + node_len(s, off))
    }
}

/// The number of nodes from `off` up to and with the first end node.
pub open spec fn nodes_from(s: Seq<u8>, off: int) -> int
    decreases s.len() - off,
{
    if !node_ok(s, off) || is_end(s, off) {
        1
    } else {
        1 + nodes_from(s, off + node_len(s, off))
    }
}

/// The size in bytes of the nodes from `off` up to and with the first end node.
pub open spec fn path_size(s: Seq<u8>, off: int) -> int
    decreases s.len() - off,
{
    if !node_ok(s, off) || is_end(s, off) {
        node_len(s, off)
    } else {
        node_len(s, off) + path_size(s, off + node_len(s, off))
    }
}

/// The bytes of the node at `off`.
pub open spec fn node_bytes(s: Seq<u8>, off: int) -> Seq<u8> {
    s.subrange(off, off + node_len(s, off))
}

/// Walks `a` from `ao` and `b` from `bo` node by node while their nodes are
/// equal: at the end of `a`, the position reached in `b` and the number of
/// nodes passed; `None` at the first node that differs.
pub open spec fn remaining_from(a: Seq<u8>, ao: int, b: Seq<u8>, bo: int, count: int) -> Option<(int, int)>
    decreases a.len() - ao,
{
    if !node_ok(a, ao) {
        None
    } else if is_end_entire(a, ao) {
        Some((bo, count))
    } else if node_bytes(a, ao) != node_bytes(b, bo) {
        None
    } else {
        remaining_from(a, ao + node_len(a, ao), b, bo + node_len(b, bo), count + 1)
    }
}

/// The number of nodes of a device path and its size in bytes, both with
/// the end node.
pub fn device_path_node_count(device_path: &[u8]) -> (r: (usize, usize))
    requires
        path_ok(device_path@, 0),
    ensures
        r.0 == nodes_from(device_path@, 0),
        r.1 == path_size(device_path@, 0),
{
    let s = device_path;
    let mut node_count: usize = 0;
    let mut dev_path_size: usize = 0;
    let mut off: usize = 0;
    loop
        invariant
            s@ == device_path@,
            s@.len() == s.len(),
            path_ok(s@, off as int),
            off == dev_path_size,
            node_count <= off,
            node_count + nodes_from(s@, off as int) == nodes_from(s@, 0),
            dev_path_size + path_size(s@, off as int) == path_size(s@, 0),
        decreases s@.len() - off,
    {
        assert(node_ok(s@, off as int));
        let current_length: usize = s[off + 2] as usize + (s[off + 3] as usize) * 256;
        assert(current_length == node_len(s@, off as int));
        node_count = node_count + 1;
        dev_path_size = dev_path_size + current_length;
        if s[off] == TYPE_END {
            return (node_count, dev_path_size);
        }
        off = off + current_length;
    }
}

/// A copy of the bytes of a device path, its end node included.
pub fn copy_device_path_to_boxed_slice(device_path: &[u8]) -> (r: Vec<u8>)
    requires
        path_ok(device_path@, 0),
    ensures
        r@ == device_path@.subrange(0, path_size(device_path@, 0)),
{
    let (_, byte_count) = device_path_node_count(device_path);
    proof {
        lemma_path_size_fits(device_path@, 0);
    }
    let mut dest_path: Vec<u8> = Vec::new();
    let mut i: usize = 0;
    while i < byte_count
        invariant
            0 <= i <= byte_count,
            byte_count <= device_path@.len(),
            dest_path@ == device_path@.subrange(0, i as int),
        decreases byte_count - i,
    {
        dest_path.push(device_path[i]);
        assert(dest_path@ =~= device_path@.subrange(0, i + 1));
        i = i + 1;
    }
    dest_path
}

/// A well-formed path from `off` fits in `s`.
proof fn lemma_path_size_fits(s: Seq<u8>, off: int)
    requires
        path_ok(s, off),
    ensures
        off + path_size(s, off) <= s.len(),
    decreases s.len() - off,
{
    if !is_end(s, off) {
        lemma_path_size_fits(s, off + node_len(s, off));
    }
}

/// Whether the node of `a` at `ao` and the node of `b` at `bo` hold the same bytes.
fn same_node(a: &[u8], ao: usize, b: &[u8], bo: usize) -> (r: bool)
    requires
        node_ok(a@, ao as int),
        node_ok(b@, bo as int),
    ensures
        r == (node_bytes(a@, ao as int) == node_bytes(b@, bo as int)),
{
    assert(a@.len() == a.len() && b@.len() == b.len());
    let la: usize = a[ao + 2] as usize + (a[ao + 3] as usize) * 256;
    let lb: usize = b[bo + 2] as usize + (b[bo + 3] as usize) * 256;
    if la != lb {
        assert(node_bytes(a@, ao as int).len() != node_bytes(b@, bo as int).len());
        return false;
    }
    let mut i: usize = 0;
    while i < la
        invariant
            0 <= i <= la,
            la == lb,
            la == node_len(a@, ao as int),
            lb == node_len(b@, bo as int),
            node_ok(a@, ao as int),
            node_ok(b@, bo as int),
            a@.len() == a.len(),
            b@.len() == b.len(),
            forall|j: int| 0 <= j < i ==> #[trigger] node_bytes(a@, ao as int)[j] == node_bytes(b@, bo as int)[j],
        decreases la - i,
    {
        if a[ao + i] != b[bo + i] {
            assert(node_bytes(a@, ao as int)[i as int] != node_bytes(b@, bo as int)[i as int]);
            return false;
        }
        i = i + 1;
    }
    assert(node_bytes(a@, ao as int) =~= node_bytes(b@, bo as int));
    true
}

/// Compares device path `a` with device path `b` node by node. Where `a`
/// is a prefix of `b` (or equal to it), the position in `b` of what remains
/// of `b` after the nodes of `a`, and the number of nodes in common (the end
/// node not counted); `None` where the first node of `a` that differs from
/// `b` is not its end node.
pub fn remaining_device_path(a: &[u8], b: &[u8]) -> (r: Option<(usize, usize)>)
    requires
        entire_path_ok(a@, 0),
        entire_path_ok(b@, 0),
    ensures
        match remaining_from(a@, 0, b@, 0, 0) {
            Some((off, n)) => r == Some((off as usize, n as usize)),
            None => r is None,
        },
{
    let mut ao: usize = 0;
    let mut bo: usize = 0;
    let mut node_count: usize = 0;
    loop
        invariant
            a@.len() == a.len(),
            b@.len() == b.len(),
            entire_path_ok(a@, ao as int),
            entire_path_ok(b@, bo as int),
            node_count <= ao,
            remaining_from(a@, ao as int, b@, bo as int, node_count as int) == remaining_from(a@, 0, b@, 0, 0),
        decreases a@.len() - ao,
    {
        if a[ao] == TYPE_END && a[ao + 1] == END_ENTIRE {
            return Some((bo, node_count));
        }
        node_count = node_count + 1;
        let a_length: usize = a[ao + 2] as usize + (a[ao + 3] as usize) * 256;
        let b_length: usize = b[bo + 2] as usize + (b[bo + 3] as usize) * 256;
        if !same_node(a, ao, b, bo) {
            return None;
        }
        assert(node_bytes(a@, ao as int)[0] == a@[ao as int] && node_bytes(a@, ao as int)[1] == a@[ao + 1]);
        assert(node_bytes(b@, bo as int)[0] == b@[bo as int] && node_bytes(b@, bo as int)[1] == b@[bo + 1]);
        ao = ao + a_length;
        bo = bo + b_length;
    }
}

/// A device path is a prefix of itself: comparing it with itself node by
/// node reaches its end node, at the same position in both.
pub proof fn lemma_path_prefix_of_itself(a: Seq<u8>, off: int, count: int)
    requires
        entire_path_ok(a, off),
    ensures
        remaining_from(a, off, a, off, count) matches Some((o, n)) && is_end_entire(a, o) && entire_path_ok(a, o)
            && n >= count,
    decreases a.len() - off,
{
    if !is_end_entire(a, off) {
        lemma_path_prefix_of_itself(a, off + node_len(a, off), count + 1);
    }
}

} // verus!
