//! The UEFI protocol database: handles, the protocol interfaces installed on
//! them, and the agents that have them open.
use vstd::prelude::*;
use std::collections::BTreeMap;
use vstd::std_specs::iter::IteratorSpec;

verus! {

broadcast use {vstd::std_specs::btree::group_btree_axioms, vstd::laws_cmp::group_laws_cmp};

/// Opened through `HandleProtocol`.
pub const OPEN_PROTOCOL_BY_HANDLE_PROTOCOL: u32 = 0x01;
/// Opened through `GetProtocol`.
pub const OPEN_PROTOCOL_GET_PROTOCOL: u32 = 0x02;
/// Opened to test for the protocol.
pub const OPEN_PROTOCOL_TEST_PROTOCOL: u32 = 0x04;
/// Opened by a child controller.
pub const OPEN_PROTOCOL_BY_CHILD_CONTROLLER: u32 = 0x08;
/// Opened by a driver.
pub const OPEN_PROTOCOL_BY_DRIVER: u32 = 0x10;
/// Opened exclusively.
pub const OPEN_PROTOCOL_EXCLUSIVE: u32 = 0x20;
/// Opened by a driver, exclusively.
pub const OPEN_PROTOCOL_BY_DRIVER_EXCLUSIVE: u32 = 0x30;

/// A GUID, its 16 bytes read in order as one big-endian number; the
/// database orders protocols by it, as by their bytes.
#[derive(Debug, Clone, Copy, PartialEq, Eq, Structural)]
pub struct Guid(pub u128);

/// The value of a sequence of bytes read as a big-endian number.
pub open spec fn be_value(s: Seq<u8>) -> int
    decreases s.len(),
{
    if s.len() == 0 {
        0
    } else {
        be_value(s.drop_last()) * 256 + s.last()
    }
}

/// `256` to the power `n`.
pub open spec fn pow256(n: nat) -> int
    decreases n,
{
    if n == 0 {
        1
    } else {
        pow256((n - 1) as nat) * 256
    }
}

proof fn lemma_pow256_mono(i: nat, j: nat)
    requires
        i <= j,
    ensures
        0 < pow256(i) <= pow256(j),
    decreases j,
{
    if j > i {
        lemma_pow256_mono(i, (j - 1) as nat);
    } else if i > 0 {
        lemma_pow256_mono((i - 1) as nat, (i - 1) as nat);
    }
}

proof fn lemma_pow256_15()
    ensures
        pow256(15) == 0x1000000000000000000000000000000,
{
    assert(pow256(0) == 0x1);
    assert(pow256(1) == 0x100);
    assert(pow256(2) == 0x10000);
    assert(pow256(3) == 0x1000000);
    assert(pow256(4) == 0x100000000);
    assert(pow256(5) == 0x10000000000);
    assert(pow256(6) == 0x1000000000000);
    assert(pow256(7) == 0x100000000000000);
    assert(pow256(8) == 0x10000000000000000);
    assert(pow256(9) == 0x1000000000000000000);
    assert(pow256(10) == 0x100000000000000000000);
    assert(pow256(11) == 0x10000000000000000000000);
    assert(pow256(12) == 0x1000000000000000000000000);
    assert(pow256(13) == 0x100000000000000000000000000);
    assert(pow256(14) == 0x10000000000000000000000000000);
    assert(pow256(15) == 0x1000000000000000000000000000000);
}

proof fn lemma_be_value_bound(s: Seq<u8>)
    ensures
        0 <= be_value(s) < pow256(s.len()),
    decreases s.len(),
{
    if s.len() > 0 {
        lemma_be_value_bound(s.drop_last());
        let p = pow256((s.len() - 1) as nat);
        assert(be_value(s.drop_last()) * 256 + s.last() < p * 256) by (nonlinear_arith)
            requires
                be_value(s.drop_last()) < p,
                s.last() < 256,
        ;
    }
}

impl Guid {
    /// The GUID with the given 16 bytes.
    pub fn from_bytes(bytes: &[u8; 16]) -> (r: Guid)
        ensures
            r.0 == be_value(bytes@),
    {
        let mut v: u128 = 0;
        let mut i: usize = 0;
        while i < 16
            invariant
                0 <= i <= 16,
                bytes@.len() == 16,
                v == be_value(bytes@.subrange(0, i as int)),
            decreases 16 - i,
        {
            proof {
                lemma_be_value_bound(bytes@.subrange(0, i as int));
                assert(bytes@.subrange(0, i + 1).drop_last() =~= bytes@.subrange(0, i as int));
                lemma_pow256_mono(i as nat, 15);
                lemma_pow256_15();
                assert(v * 256 + bytes[i as int] <= u128::MAX) by (nonlinear_arith)
                    requires
                        v < 0x1000000000000000000000000000000u128,
                        bytes[i as int] < 256,
                ;
            }
            v = v * 256 + bytes[i] as u128;
            i = i + 1;
        }
        assert(bytes@.subrange(0, 16) =~= bytes@);
        Guid(v)
    }
}

/// Errors of the protocol database.
#[derive(Debug, Clone, Copy, PartialEq, Eq, Structural)]
pub enum EfiError {
    /// A handle, agent, controller or attribute is invalid.
    InvalidParameter,
    /// The protocol or usage is not there.
    NotFound,
    /// The interface is in use in a way that forbids the request.
    AccessDenied,
    /// The agent already has the protocol open by driver.
    AlreadyStarted,
    /// The handle does not support the protocol.
    Unsupported,
}

/// An agent's use of a protocol instance.
#[derive(Debug, Clone, Copy, PartialEq, Eq, Structural)]
pub struct OpenProtocolInformation {
    /// The agent that opened the protocol.
    pub agent_handle: Option<usize>,
    /// The controller it was opened for.
    pub controller_handle: Option<usize>,
    /// How it was opened.
    pub attributes: u32,
    /// How many times it was opened so.
    pub open_count: u32,
}

/// The form of [`OpenProtocolInformation`] that the UEFI interface hands
/// out, with 0 for an absent handle.
#[derive(Debug, Clone, Copy, PartialEq, Eq, Structural)]
pub struct OpenProtocolInformationEntry {
    /// The agent that opened the protocol (0 for none).
    pub agent_handle: usize,
    /// The controller it was opened for (0 for none).
    pub controller_handle: usize,
    /// How it was opened.
    pub attributes: u32,
    /// How many times it was opened so.
    pub open_count: u32,
}

/// Whether `attributes` together with the given handles describe a valid way to open a protocol on `handle`.
pub open spec fn open_request_valid(
    handle: usize,
    agent_handle: Option<usize>,
    controller_handle: Option<usize>,
    attributes: u32,
) -> bool {
    if attributes == OPEN_PROTOCOL_BY_CHILD_CONTROLLER {
        agent_handle is Some && controller_handle is Some && handle != controller_handle->0
    } else if attributes == OPEN_PROTOCOL_BY_DRIVER || attributes == OPEN_PROTOCOL_BY_DRIVER_EXCLUSIVE {
        agent_handle is Some && controller_handle is Some
    } else if attributes == OPEN_PROTOCOL_EXCLUSIVE {
        agent_handle is Some
    } else {
        attributes == OPEN_PROTOCOL_BY_HANDLE_PROTOCOL || attributes == OPEN_PROTOCOL_GET_PROTOCOL || attributes
            == OPEN_PROTOCOL_TEST_PROTOCOL
    }
}

impl OpenProtocolInformation {
    /// Usage records match when agent, controller and attributes are equal.
    pub open spec fn matches(self, other: Self) -> bool {
        self.agent_handle == other.agent_handle && self.controller_handle == other.controller_handle
            && self.attributes == other.attributes
    }

    /// A usage record for opening a protocol on `handle`, if the request is valid.
    pub fn new(
        handle: usize,
        agent_handle: Option<usize>,
        controller_handle: Option<usize>,
        attributes: u32,
    ) -> (r: Result<Self, EfiError>)
        ensures
            open_request_valid(handle, agent_handle, controller_handle, attributes) ==> r == Ok::<Self, EfiError>(
                OpenProtocolInformation { agent_handle, controller_handle, attributes, open_count: 1 },
            ),
            !open_request_valid(handle, agent_handle, controller_handle, attributes) ==> r == Err::<Self, EfiError>(
                EfiError::InvalidParameter,
            ),
    {
        if attributes == OPEN_PROTOCOL_BY_CHILD_CONTROLLER {
            match (agent_handle, controller_handle) {
                (Some(_), Some(c)) => {
                    if handle == c {
                        return Err(EfiError::InvalidParameter);
                    }
                },
                _ => return Err(EfiError::InvalidParameter),
            }
        } else if attributes == OPEN_PROTOCOL_BY_DRIVER || attributes == OPEN_PROTOCOL_BY_DRIVER_EXCLUSIVE {
            if agent_handle.is_none() || controller_handle.is_none() {
                return Err(EfiError::InvalidParameter);
            }
        } else if attributes == OPEN_PROTOCOL_EXCLUSIVE {
            if agent_handle.is_none() {
                return Err(EfiError::InvalidParameter);
            }
        } else if !(attributes == OPEN_PROTOCOL_BY_HANDLE_PROTOCOL || attributes == OPEN_PROTOCOL_GET_PROTOCOL
            || attributes == OPEN_PROTOCOL_TEST_PROTOCOL) {
            return Err(EfiError::InvalidParameter);
        }
        Ok(OpenProtocolInformation { agent_handle, controller_handle, attributes, open_count: 1 })
    }

    /// The record in the form the UEFI interface hands out.
    pub fn to_efi_open_protocol(&self) -> (r: OpenProtocolInformationEntry)
        ensures
            r == (OpenProtocolInformationEntry {
                agent_handle: match self.agent_handle {
                    Some(h) => h,
                    None => 0,
                },
                controller_handle: match self.controller_handle {
                    Some(h) => h,
                    None => 0,
                },
                attributes: self.attributes,
                open_count: self.open_count,
            }),
    {
        OpenProtocolInformationEntry {
            agent_handle: match self.agent_handle {
                Some(h) => h,
                None => 0,
            },
            controller_handle: match self.controller_handle {
                Some(h) => h,
                None => 0,
            },
            attributes: self.attributes,
            open_count: self.open_count,
        }
    }
}

/// A protocol interface installed on a handle.
#[derive(Debug)]
pub struct ProtocolInstance {
    /// Address of the interface.
    pub interface: usize,
    /// Some agent has it open by driver.
    pub opened_by_driver: bool,
    /// Some agent has it open exclusively.
    pub opened_by_exclusive: bool,
    /// The agents that have it open.
    pub usage: Vec<OpenProtocolInformation>,
}

/// The protocol database: for each handle (handle `h` at index `h - 1`),
/// its protocol instances by GUID.
#[derive(Debug)]
pub struct ProtocolDb {
    /// Protocols on each handle ever created.
    pub handles: Vec<BTreeMap<u128, ProtocolInstance>>,
}

/// What the database records of a protocol instance: interface, opened by
/// driver, opened exclusively, and its usage records.
pub type InstanceView = (usize, bool, bool, Seq<OpenProtocolInformation>);

/// The record of a freshly installed interface.
pub open spec fn fresh_instance(interface: usize) -> InstanceView {
    (interface, false, false, Seq::empty())
}

/// Whether some usage record was opened by driver.
pub open spec fn any_by_driver(usage: Seq<OpenProtocolInformation>) -> bool {
    exists|i: int| 0 <= i < usage.len() && #[trigger] usage[i].attributes & OPEN_PROTOCOL_BY_DRIVER != 0
}

/// Handle `h` was created and, when a protocol is given, holds it.
pub open spec fn handle_matches(v: Seq<Map<u128, InstanceView>>, protocol: Option<Guid>, h: int) -> bool {
    &&& 1 <= h <= v.len()
    &&& match protocol {
        None => true,
        Some(p) => v[h - 1].contains_key(p.0),
    }
}

/// Index of the first record of `u` that matches `user` (agent, controller
/// and attributes), or -1.
pub open spec fn first_match(u: Seq<OpenProtocolInformation>, user: OpenProtocolInformation) -> int
    decreases u.len(),
{
    if u.len() == 0 {
        -1
    } else {
        let r = first_match(u.drop_last(), user);
        if r >= 0 {
            r
        } else if u.last().matches(user) {
            u.len() - 1
        } else {
            -1
        }
    }
}

proof fn lemma_first_match_prefix(u: Seq<OpenProtocolInformation>, user: OpenProtocolInformation, n: int)
    requires
        0 < n <= u.len(),
        first_match(u.subrange(0, n - 1), user) == -1,
        u[n - 1].matches(user),
    ensures
        first_match(u, user) == n - 1,
    decreases u.len(),
{
    assert(u.subrange(0, n).drop_last() =~= u.subrange(0, n - 1));
    if u.len() > n {
        assert(u.drop_last().subrange(0, n - 1) =~= u.subrange(0, n - 1));
        assert(u.drop_last().subrange(0, n) =~= u.subrange(0, n));
        lemma_first_match_prefix(u.drop_last(), user, n);
    } else {
        assert(u.subrange(0, n) =~= u);
    }
}

/// Where the request would count one more opening of a matching usage
/// record (a valid request, the instance open neither by driver nor
/// exclusively, and a record of the same agent, controller and attributes),
/// that record's count is below the largest `u32`.
pub open spec fn count_room(
    inst: InstanceView,
    handle: usize,
    agent_handle: Option<usize>,
    controller_handle: Option<usize>,
    attributes: u32,
) -> bool {
    let user = OpenProtocolInformation { agent_handle, controller_handle, attributes, open_count: 1 };
    let m = first_match(inst.3, user);
    open_request_valid(handle, agent_handle, controller_handle, attributes) && !inst.1 && !inst.2 && m >= 0
        ==> inst.3[m].open_count < u32::MAX
}

/// The record was made by `agent_handle` for `controller_handle`.
pub open spec fn user_is(x: OpenProtocolInformation, agent_handle: Option<usize>, controller_handle: Option<usize>) -> bool {
    x.agent_handle == agent_handle && x.controller_handle == controller_handle
}

/// Some record was made by `agent_handle` for `controller_handle`.
pub open spec fn any_by_user(u: Seq<OpenProtocolInformation>, agent_handle: Option<usize>, controller_handle: Option<usize>) -> bool {
    exists|j: int| 0 <= j < u.len() && #[trigger] user_is(u[j], agent_handle, controller_handle)
}

/// Some record made by `agent_handle` for `controller_handle` has the attribute bit `bit`.
pub open spec fn any_removed_with(
    u: Seq<OpenProtocolInformation>,
    agent_handle: Option<usize>,
    controller_handle: Option<usize>,
    bit: u32,
) -> bool {
    exists|j: int| 0 <= j < u.len() && #[trigger] user_is(u[j], agent_handle, controller_handle) && u[j].attributes & bit != 0
}

/// The instance after every record by `agent_handle` for `controller_handle`
/// is removed; a removed record that opened it by driver (exclusively)
/// clears that flag.
pub open spec fn closed_record(inst: InstanceView, agent_handle: Option<usize>, controller_handle: Option<usize>) -> InstanceView {
    (
        inst.0,
        inst.1 && !any_removed_with(inst.3, agent_handle, controller_handle, OPEN_PROTOCOL_BY_DRIVER),
        inst.2 && !any_removed_with(inst.3, agent_handle, controller_handle, OPEN_PROTOCOL_EXCLUSIVE),
        inst.3.filter(|x: OpenProtocolInformation| !(x.agent_handle == agent_handle && x.controller_handle == controller_handle)),
    )
}

/// Whether some usage record was opened exclusively.
pub open spec fn any_exclusive(usage: Seq<OpenProtocolInformation>) -> bool {
    exists|i: int| 0 <= i < usage.len() && #[trigger] usage[i].attributes & OPEN_PROTOCOL_EXCLUSIVE != 0
}

/// The record opened the protocol by driver or exclusively.
pub open spec fn holds_open_bits(x: OpenProtocolInformation) -> bool {
    x.attributes & OPEN_PROTOCOL_BY_DRIVER != 0 || x.attributes & OPEN_PROTOCOL_EXCLUSIVE != 0
}

/// The flags of an instance say whether a usage record opened it by driver
/// and whether one opened it exclusively, and all records that did either
/// are one and the same record.
pub open spec fn instance_wf(inst: InstanceView) -> bool {
    &&& inst.1 == any_by_driver(inst.3)
    &&& inst.2 == any_exclusive(inst.3)
    &&& forall|i: int, j: int|
        0 <= i < inst.3.len() && 0 <= j < inst.3.len() && holds_open_bits(#[trigger] inst.3[i]) && holds_open_bits(
            #[trigger] inst.3[j],
        ) ==> inst.3[i] == inst.3[j]
}

/// Every protocol instance of the database keeps its flags in step with its usage records.
pub open spec fn db_wf(v: Seq<Map<u128, InstanceView>>) -> bool {
    forall|h: int, k: u128| 0 <= h < v.len() && #[trigger] v[h].contains_key(k) ==> instance_wf(v[h][k])
}

/// What recording a usage gives: the result, and the instance afterwards.
pub open spec fn add_usage_result(
    inst: InstanceView,
    handle: usize,
    agent_handle: Option<usize>,
    controller_handle: Option<usize>,
    attributes: u32,
) -> (Result<(), EfiError>, InstanceView) {
    let user = OpenProtocolInformation { agent_handle, controller_handle, attributes, open_count: 1 };
    let m = first_match(inst.3, user);
    if !open_request_valid(handle, agent_handle, controller_handle, attributes) {
        (Err(EfiError::InvalidParameter), inst)
    } else if inst.1 && m >= 0 {
        (Err(EfiError::AlreadyStarted), inst)
    } else if !inst.2 && m >= 0 {
        (
            Ok(()),
            (
                inst.0,
                inst.1,
                inst.2,
                inst.3.update(m, OpenProtocolInformation { open_count: (inst.3[m].open_count + 1) as u32, ..inst.3[m] }),
            ),
        )
    } else if (attributes == OPEN_PROTOCOL_BY_DRIVER || attributes == OPEN_PROTOCOL_EXCLUSIVE || attributes
        == OPEN_PROTOCOL_BY_DRIVER_EXCLUSIVE) && (inst.1 || inst.2) {
        (Err(EfiError::AccessDenied), inst)
    } else if agent_handle is None {
        (Ok(()), inst)
    } else {
        (
            Ok(()),
            (
                inst.0,
                inst.1 || attributes & OPEN_PROTOCOL_BY_DRIVER != 0,
                inst.2 || attributes & OPEN_PROTOCOL_EXCLUSIVE != 0,
                inst.3.push(user),
            ),
        )
    }
}

proof fn lemma_first_match_in(u: Seq<OpenProtocolInformation>, user: OpenProtocolInformation)
    ensures
        -1 <= first_match(u, user) < u.len(),
        first_match(u, user) >= 0 ==> u[first_match(u, user)].matches(user),
    decreases u.len(),
{
    if u.len() > 0 {
        lemma_first_match_in(u.drop_last(), user);
    }
}

/// A freshly installed interface is well kept.
proof fn lemma_fresh_wf(interface: usize)
    ensures
        instance_wf(fresh_instance(interface)),
{
}

/// Recording a usage keeps an instance well kept.
proof fn lemma_add_usage_wf(
    inst: InstanceView,
    handle: usize,
    agent_handle: Option<usize>,
    controller_handle: Option<usize>,
    attributes: u32,
)
    requires
        instance_wf(inst),
    ensures
        instance_wf(add_usage_result(inst, handle, agent_handle, controller_handle, attributes).1),
{
    let user = OpenProtocolInformation { agent_handle, controller_handle, attributes, open_count: 1 };
    let m = first_match(inst.3, user);
    lemma_first_match_in(inst.3, user);
    let out = add_usage_result(inst, handle, agent_handle, controller_handle, attributes).1;
    if open_request_valid(handle, agent_handle, controller_handle, attributes) && !(inst.1 && m >= 0) && !inst.2 && m >= 0 {
        let u = out.3;
        assert forall|i: int| 0 <= i < u.len() implies u[i].attributes == inst.3[i].attributes by {}
        assert(any_by_driver(u) == any_by_driver(inst.3)) by {
            if any_by_driver(inst.3) {
                let i = choose|i: int| 0 <= i < inst.3.len() && #[trigger] inst.3[i].attributes & OPEN_PROTOCOL_BY_DRIVER != 0;
                assert(u[i].attributes == inst.3[i].attributes);
            }
            if any_by_driver(u) {
                let i = choose|i: int| 0 <= i < u.len() && #[trigger] u[i].attributes & OPEN_PROTOCOL_BY_DRIVER != 0;
                assert(u[i].attributes == inst.3[i].attributes);
            }
        }
        assert(any_exclusive(u) == any_exclusive(inst.3)) by {
            if any_exclusive(u) {
                let i = choose|i: int| 0 <= i < u.len() && #[trigger] u[i].attributes & OPEN_PROTOCOL_EXCLUSIVE != 0;
                assert(u[i].attributes == inst.3[i].attributes);
            }
        }
        assert forall|i: int| 0 <= i < u.len() implies !holds_open_bits(#[trigger] u[i]) by {
            assert(u[i].attributes == inst.3[i].attributes);
            if inst.3[i].attributes & OPEN_PROTOCOL_BY_DRIVER != 0 {
                assert(any_by_driver(inst.3));
            }
            if inst.3[i].attributes & OPEN_PROTOCOL_EXCLUSIVE != 0 {
                assert(any_exclusive(inst.3));
            }
        }
    } else if open_request_valid(handle, agent_handle, controller_handle, attributes) && !(inst.1 && m >= 0) && !(!inst.2
        && m >= 0) && !((attributes == OPEN_PROTOCOL_BY_DRIVER || attributes == OPEN_PROTOCOL_EXCLUSIVE || attributes
        == OPEN_PROTOCOL_BY_DRIVER_EXCLUSIVE) && (inst.1 || inst.2)) && agent_handle is Some {
        let u = out.3;
        assert(u == inst.3.push(user));
        assert(any_by_driver(u) == (any_by_driver(inst.3) || attributes & OPEN_PROTOCOL_BY_DRIVER != 0)) by {
            if any_by_driver(inst.3) {
                let i = choose|i: int| 0 <= i < inst.3.len() && #[trigger] inst.3[i].attributes & OPEN_PROTOCOL_BY_DRIVER != 0;
                assert(u[i] == inst.3[i]);
                assert(u[i].attributes & OPEN_PROTOCOL_BY_DRIVER != 0);
            }
            if attributes & OPEN_PROTOCOL_BY_DRIVER != 0 {
                assert(u[inst.3.len() as int] == user);
                assert(u[inst.3.len() as int].attributes & OPEN_PROTOCOL_BY_DRIVER != 0);
            }
            if any_by_driver(u) {
                let i = choose|i: int| 0 <= i < u.len() && #[trigger] u[i].attributes & OPEN_PROTOCOL_BY_DRIVER != 0;
                if i < inst.3.len() {
                    assert(u[i] == inst.3[i]);
                }
            }
        }
        assert(any_exclusive(u) == (any_exclusive(inst.3) || attributes & OPEN_PROTOCOL_EXCLUSIVE != 0)) by {
            if any_exclusive(inst.3) {
                let i = choose|i: int| 0 <= i < inst.3.len() && #[trigger] inst.3[i].attributes & OPEN_PROTOCOL_EXCLUSIVE != 0;
                assert(u[i] == inst.3[i]);
                assert(u[i].attributes & OPEN_PROTOCOL_EXCLUSIVE != 0);
            }
            if attributes & OPEN_PROTOCOL_EXCLUSIVE != 0 {
                assert(u[inst.3.len() as int] == user);
                assert(u[inst.3.len() as int].attributes & OPEN_PROTOCOL_EXCLUSIVE != 0);
            }
            if any_exclusive(u) {
                let i = choose|i: int| 0 <= i < u.len() && #[trigger] u[i].attributes & OPEN_PROTOCOL_EXCLUSIVE != 0;
                if i < inst.3.len() {
                    assert(u[i] == inst.3[i]);
                }
            }
        }
        if holds_open_bits(user) {
            assert(attributes == OPEN_PROTOCOL_BY_DRIVER || attributes == OPEN_PROTOCOL_EXCLUSIVE || attributes
                == OPEN_PROTOCOL_BY_DRIVER_EXCLUSIVE) by {
                assert(0x01u32 & 0x10 == 0 && 0x01u32 & 0x20 == 0 && 0x02u32 & 0x10 == 0 && 0x02u32 & 0x20 == 0
                    && 0x04u32 & 0x10 == 0 && 0x04u32 & 0x20 == 0 && 0x08u32 & 0x10 == 0 && 0x08u32 & 0x20 == 0)
                    by (bit_vector);
            }
            assert forall|i: int| 0 <= i < inst.3.len() implies !holds_open_bits(#[trigger] inst.3[i]) by {
                if inst.3[i].attributes & OPEN_PROTOCOL_BY_DRIVER != 0 {
                    assert(any_by_driver(inst.3));
                }
                if inst.3[i].attributes & OPEN_PROTOCOL_EXCLUSIVE != 0 {
                    assert(any_exclusive(inst.3));
                }
            }
        }
        assert forall|i: int, j: int|
            0 <= i < u.len() && 0 <= j < u.len() && holds_open_bits(#[trigger] u[i]) && holds_open_bits(
                #[trigger] u[j],
            ) implies u[i] == u[j] by {
            if i < inst.3.len() {
                assert(u[i] == inst.3[i]);
            }
            if j < inst.3.len() {
                assert(u[j] == inst.3[j]);
            }
        }
    }
}

/// Closing the usage of a user keeps an instance well kept.
proof fn lemma_closed_wf(inst: InstanceView, agent_handle: Option<usize>, controller_handle: Option<usize>)
    requires
        instance_wf(inst),
    ensures
        instance_wf(closed_record(inst, agent_handle, controller_handle)),
{
    let pred = |x: OpenProtocolInformation| !(x.agent_handle == agent_handle && x.controller_handle == controller_handle);
    let u = inst.3;
    let f = u.filter(pred);
    let out = closed_record(inst, agent_handle, controller_handle);
    assert(out.3 == f);
    assert forall|i: int| 0 <= i < f.len() implies u.contains(#[trigger] f[i]) by {
        assert(f.contains(f[i]));
        u.lemma_filter_contains_rev(pred, f[i]);
    }
    // the records of `f` with a bit are records of `u` with a bit
    assert(any_by_driver(f) == (inst.1 && !any_removed_with(u, agent_handle, controller_handle, OPEN_PROTOCOL_BY_DRIVER))) by {
        if any_by_driver(f) {
            let i = choose|i: int| 0 <= i < f.len() && #[trigger] f[i].attributes & OPEN_PROTOCOL_BY_DRIVER != 0;
            assert(u.contains(f[i]));
            let k = choose|k: int| 0 <= k < u.len() && u[k] == f[i];
            assert(u[k].attributes & OPEN_PROTOCOL_BY_DRIVER != 0);
            assert(any_by_driver(u));
            if any_removed_with(u, agent_handle, controller_handle, OPEN_PROTOCOL_BY_DRIVER) {
                let j = choose|j: int| 0 <= j < u.len() && #[trigger] user_is(u[j], agent_handle, controller_handle)
                    && u[j].attributes & OPEN_PROTOCOL_BY_DRIVER != 0;
                assert(holds_open_bits(u[j]) && holds_open_bits(u[k]));
                assert(u[j] == u[k]);
            }
        }
        if inst.1 && !any_removed_with(u, agent_handle, controller_handle, OPEN_PROTOCOL_BY_DRIVER) {
            let k = choose|k: int| 0 <= k < u.len() && #[trigger] u[k].attributes & OPEN_PROTOCOL_BY_DRIVER != 0;
            if !pred(u[k]) {
                assert(user_is(u[k], agent_handle, controller_handle));
            }
            u.lemma_filter_contains(pred, k);
            assert(f.contains(u[k]));
            let i = choose|i: int| 0 <= i < f.len() && f[i] == u[k];
            assert(f[i].attributes & OPEN_PROTOCOL_BY_DRIVER != 0);
        }
    }
    assert(any_exclusive(f) == (inst.2 && !any_removed_with(u, agent_handle, controller_handle, OPEN_PROTOCOL_EXCLUSIVE))) by {
        if any_exclusive(f) {
            let i = choose|i: int| 0 <= i < f.len() && #[trigger] f[i].attributes & OPEN_PROTOCOL_EXCLUSIVE != 0;
            assert(u.contains(f[i]));
            let k = choose|k: int| 0 <= k < u.len() && u[k] == f[i];
            assert(u[k].attributes & OPEN_PROTOCOL_EXCLUSIVE != 0);
            assert(any_exclusive(u));
            if any_removed_with(u, agent_handle, controller_handle, OPEN_PROTOCOL_EXCLUSIVE) {
                let j = choose|j: int| 0 <= j < u.len() && #[trigger] user_is(u[j], agent_handle, controller_handle)
                    && u[j].attributes & OPEN_PROTOCOL_EXCLUSIVE != 0;
                assert(holds_open_bits(u[j]) && holds_open_bits(u[k]));
                assert(u[j] == u[k]);
            }
        }
        if inst.2 && !any_removed_with(u, agent_handle, controller_handle, OPEN_PROTOCOL_EXCLUSIVE) {
            let k = choose|k: int| 0 <= k < u.len() && #[trigger] u[k].attributes & OPEN_PROTOCOL_EXCLUSIVE != 0;
            if !pred(u[k]) {
                assert(user_is(u[k], agent_handle, controller_handle));
            }
            u.lemma_filter_contains(pred, k);
            assert(f.contains(u[k]));
            let i = choose|i: int| 0 <= i < f.len() && f[i] == u[k];
            assert(f[i].attributes & OPEN_PROTOCOL_EXCLUSIVE != 0);
        }
    }
    assert forall|i: int, j: int|
        0 <= i < f.len() && 0 <= j < f.len() && holds_open_bits(#[trigger] f[i]) && holds_open_bits(#[trigger] f[j])
            implies f[i] == f[j] by {
        assert(u.contains(f[i]) && u.contains(f[j]));
        let a = choose|a: int| 0 <= a < u.len() && u[a] == f[i];
        let b = choose|b: int| 0 <= b < u.len() && u[b] == f[j];
        assert(holds_open_bits(u[a]) && holds_open_bits(u[b]));
    }
}

/// Putting a well kept instance into a well kept database keeps it well kept.
proof fn lemma_db_wf_insert(v: Seq<Map<u128, InstanceView>>, h: int, k: u128, inst: InstanceView)
    requires
        db_wf(v),
        0 <= h < v.len(),
        instance_wf(inst),
    ensures
        db_wf(v.update(h, v[h].insert(k, inst))),
{
    let w = v.update(h, v[h].insert(k, inst));
    assert forall|g: int, q: u128| 0 <= g < w.len() && #[trigger] w[g].contains_key(q) implies instance_wf(w[g][q]) by {
        if g != h {
            assert(w[g] == v[g]);
        } else if q != k {
            assert(v[h].contains_key(q));
        }
    }
}

/// Removing an instance from a well kept database keeps it well kept.
proof fn lemma_db_wf_remove(v: Seq<Map<u128, InstanceView>>, h: int, k: u128)
    requires
        db_wf(v),
        0 <= h < v.len(),
    ensures
        db_wf(v.update(h, v[h].remove(k))),
{
    let w = v.update(h, v[h].remove(k));
    assert forall|g: int, q: u128| 0 <= g < w.len() && #[trigger] w[g].contains_key(q) implies instance_wf(w[g][q]) by {
        if g != h {
            assert(w[g] == v[g]);
        } else {
            assert(v[h].contains_key(q));
        }
    }
}

/// Law: opening a protocol a second time in the same way (same agent,
/// controller and attributes, not by driver nor exclusively) does not add a
/// usage record; it counts one more opening of the first.
pub proof fn lemma_same_usage_counts_up(
    inst: InstanceView,
    handle: usize,
    agent: usize,
    controller_handle: Option<usize>,
    attributes: u32,
)
    requires
        instance_wf(inst),
        inst.3.len() == 0,
        open_request_valid(handle, Some(agent), controller_handle, attributes),
        attributes & OPEN_PROTOCOL_BY_DRIVER == 0,
        attributes & OPEN_PROTOCOL_EXCLUSIVE == 0,
    ensures
        ({
            let user = OpenProtocolInformation { agent_handle: Some(agent), controller_handle, attributes, open_count: 1 };
            let (r1, i1) = add_usage_result(inst, handle, Some(agent), controller_handle, attributes);
            let (r2, i2) = add_usage_result(i1, handle, Some(agent), controller_handle, attributes);
            &&& r1 == Ok::<(), EfiError>(())
            &&& i1.3 == seq![user]
            &&& r2 == Ok::<(), EfiError>(())
            &&& i2.3 == seq![OpenProtocolInformation { open_count: 2, ..user }]
        }),
{
    let user = OpenProtocolInformation { agent_handle: Some(agent), controller_handle, attributes, open_count: 1 };
    assert(inst.3 == Seq::<OpenProtocolInformation>::empty());
    assert(!any_by_driver(inst.3) && !any_exclusive(inst.3));
    assert(first_match(inst.3, user) == -1);
    let i1 = add_usage_result(inst, handle, Some(agent), controller_handle, attributes).1;
    assert(i1.3 =~= seq![user]);
    assert(i1.3.drop_last() =~= Seq::<OpenProtocolInformation>::empty());
    assert(first_match(i1.3, user) == 0);
}

/// Law: once one agent has a protocol open by driver or exclusively, the
/// same request again is refused as already started (by driver), another
/// agent's request by driver or exclusively is refused, and another agent
/// may still open it for a child controller, which adds a record.
pub proof fn lemma_driver_usage_excludes_others(
    inst: InstanceView,
    handle: usize,
    agent: usize,
    controller: usize,
    attributes: u32,
    other: usize,
    child: usize,
)
    requires
        instance_wf(inst),
        inst.3.len() == 0,
        attributes == OPEN_PROTOCOL_BY_DRIVER || attributes == OPEN_PROTOCOL_EXCLUSIVE || attributes
            == OPEN_PROTOCOL_BY_DRIVER_EXCLUSIVE,
        other != agent,
        child != handle,
    ensures
        ({
            let i1 = add_usage_result(inst, handle, Some(agent), Some(controller), attributes).1;
            &&& add_usage_result(inst, handle, Some(agent), Some(controller), attributes).0 == Ok::<(), EfiError>(())
            &&& i1.3 == seq![OpenProtocolInformation { agent_handle: Some(agent), controller_handle: Some(controller), attributes, open_count: 1 }]
            &&& attributes & OPEN_PROTOCOL_BY_DRIVER != 0 ==> add_usage_result(i1, handle, Some(agent), Some(controller), attributes)
                == (Err::<(), EfiError>(EfiError::AlreadyStarted), i1)
            &&& add_usage_result(i1, handle, Some(other), Some(controller), OPEN_PROTOCOL_BY_DRIVER) == (Err::<(), EfiError>(
                EfiError::AccessDenied,
            ), i1)
            &&& add_usage_result(i1, handle, Some(other), Some(controller), OPEN_PROTOCOL_EXCLUSIVE) == (Err::<(), EfiError>(
                EfiError::AccessDenied,
            ), i1)
            &&& add_usage_result(i1, handle, Some(other), Some(child), OPEN_PROTOCOL_BY_CHILD_CONTROLLER).0 == Ok::<(), EfiError>(())
            &&& add_usage_result(i1, handle, Some(other), Some(child), OPEN_PROTOCOL_BY_CHILD_CONTROLLER).1.3 == i1.3.push(
                OpenProtocolInformation { agent_handle: Some(other), controller_handle: Some(child), attributes: OPEN_PROTOCOL_BY_CHILD_CONTROLLER, open_count: 1 },
            )
        }),
{
    let user = OpenProtocolInformation { agent_handle: Some(agent), controller_handle: Some(controller), attributes, open_count: 1 };
    assert(inst.3 == Seq::<OpenProtocolInformation>::empty());
    assert(!any_by_driver(inst.3) && !any_exclusive(inst.3));
    assert(first_match(inst.3, user) == -1);
    assert(0x10u32 & 0x10 != 0 && 0x20u32 & 0x20 != 0 && 0x30u32 & 0x10 != 0 && 0x30u32 & 0x20 != 0 && 0x20u32 & 0x10 == 0
        && 0x10u32 & 0x20 == 0 && 0x08u32 & 0x10 == 0 && 0x08u32 & 0x20 == 0) by (bit_vector);
    let i1 = add_usage_result(inst, handle, Some(agent), Some(controller), attributes).1;
    assert(i1.3 =~= seq![user]);
    assert(i1.3.drop_last() =~= Seq::<OpenProtocolInformation>::empty());
    assert(i1.1 || i1.2);
    assert(first_match(i1.3, user) == 0);
    let o1 = OpenProtocolInformation { agent_handle: Some(other), controller_handle: Some(controller), attributes: OPEN_PROTOCOL_BY_DRIVER, open_count: 1 };
    let o2 = OpenProtocolInformation { agent_handle: Some(other), controller_handle: Some(controller), attributes: OPEN_PROTOCOL_EXCLUSIVE, open_count: 1 };
    let o3 = OpenProtocolInformation { agent_handle: Some(other), controller_handle: Some(child), attributes: OPEN_PROTOCOL_BY_CHILD_CONTROLLER, open_count: 1 };
    assert(first_match(i1.3.drop_last(), o1) == -1);
    assert(!i1.3.last().matches(o1));
    assert(first_match(i1.3, o1) == -1);
    assert(first_match(i1.3.drop_last(), o2) == -1);
    assert(!i1.3.last().matches(o2));
    assert(first_match(i1.3, o2) == -1);
    assert(first_match(i1.3.drop_last(), o3) == -1);
    assert(!i1.3.last().matches(o3));
    assert(first_match(i1.3, o3) == -1);
}

/// Law: when one agent has a protocol open by driver for a controller, only
/// that agent and controller have a usage to close; once it is closed, no
/// record and no flag is left, and another agent may open it by driver.
pub proof fn lemma_close_then_reopen(inst: InstanceView, handle: usize, agent: usize, controller: usize, other: usize)
    requires
        instance_wf(inst),
        inst.3 == seq![
            OpenProtocolInformation { agent_handle: Some(agent), controller_handle: Some(controller), attributes: OPEN_PROTOCOL_BY_DRIVER, open_count: 1 },
        ],
    ensures
        forall|a: Option<usize>, c: Option<usize>|
            #[trigger] any_by_user(inst.3, a, c) <==> (a == Some(agent) && c == Some(controller)),
        ({
            let i2 = closed_record(inst, Some(agent), Some(controller));
            &&& i2.3.len() == 0
            &&& !i2.1
            &&& !i2.2
            &&& add_usage_result(i2, handle, Some(other), Some(controller), OPEN_PROTOCOL_BY_DRIVER).0 == Ok::<(), EfiError>(())
        }),
{
    let u = inst.3[0];
    assert forall|a: Option<usize>, c: Option<usize>|
        #[trigger] any_by_user(inst.3, a, c) <==> (a == Some(agent) && c == Some(controller)) by {
        if a == Some(agent) && c == Some(controller) {
            assert(user_is(inst.3[0], a, c));
        }
    }
    let pred = |x: OpenProtocolInformation| !(x.agent_handle == Some(agent) && x.controller_handle == Some(controller));
    assert(inst.3.filter(pred) =~= Seq::<OpenProtocolInformation>::empty()) by {
        let f = inst.3.filter(pred);
        if f.len() > 0 {
            inst.3.lemma_filter_pred(pred, 0);
            assert(f.contains(f[0]));
            inst.3.lemma_filter_contains_rev(pred, f[0]);
        }
    }
    assert(0x10u32 & 0x10 != 0) by (bit_vector);
    assert(user_is(inst.3[0], Some(agent), Some(controller)) && inst.3[0].attributes & OPEN_PROTOCOL_BY_DRIVER != 0);
    assert(any_removed_with(inst.3, Some(agent), Some(controller), OPEN_PROTOCOL_BY_DRIVER));
    let i2 = closed_record(inst, Some(agent), Some(controller));
    assert(i2.3 =~= Seq::<OpenProtocolInformation>::empty());
    assert(!any_exclusive(inst.3)) by {
        assert(0x10u32 & 0x20 == 0) by (bit_vector);
        if any_exclusive(inst.3) {
            let i = choose|i: int| 0 <= i < inst.3.len() && #[trigger] inst.3[i].attributes & OPEN_PROTOCOL_EXCLUSIVE != 0;
            assert(i == 0);
        }
    }
    let o = OpenProtocolInformation { agent_handle: Some(other), controller_handle: Some(controller), attributes: OPEN_PROTOCOL_BY_DRIVER, open_count: 1 };
    assert(first_match(i2.3, o) == -1);
}

/// Law: closing the usage of one agent for one controller removes exactly
/// its records: a record is left exactly where it was made by another agent
/// or for another controller; the interface is kept, and the instance stays
/// well kept, its flags in step with the records that are left.
pub proof fn lemma_close_removes_only_that_user(
    inst: InstanceView,
    agent_handle: Option<usize>,
    controller_handle: Option<usize>,
)
    requires
        instance_wf(inst),
    ensures
        closed_record(inst, agent_handle, controller_handle).0 == inst.0,
        forall|x: OpenProtocolInformation|
            #[trigger] closed_record(inst, agent_handle, controller_handle).3.contains(x) <==> inst.3.contains(x) && !(
            x.agent_handle == agent_handle && x.controller_handle == controller_handle),
        instance_wf(closed_record(inst, agent_handle, controller_handle)),
{
    broadcast use vstd::seq_lib::group_filter_ensures;

    lemma_closed_wf(inst, agent_handle, controller_handle);
    let pred = |x: OpenProtocolInformation| !(x.agent_handle == agent_handle && x.controller_handle == controller_handle);
    assert forall|x: OpenProtocolInformation|
        #[trigger] closed_record(inst, agent_handle, controller_handle).3.contains(x) <==> inst.3.contains(x) && !(
        x.agent_handle == agent_handle && x.controller_handle == controller_handle) by {
        let f = inst.3.filter(pred);
        if f.contains(x) {
            inst.3.lemma_filter_contains_rev(pred, x);
            let k = choose|k: int| 0 <= k < f.len() && f[k] == x;
            assert(pred(f[k]));
        }
        if inst.3.contains(x) && pred(x) {
            let k = choose|k: int| 0 <= k < inst.3.len() && inst.3[k] == x;
            assert(f.contains(inst.3[k]));
        }
    }
}

/// The keys of a map are handed out in increasing order.
proof fn lemma_increasing_keys(rem: Seq<&u128>)
    requires
        vstd::std_specs::btree::increasing_seq(rem),
    ensures
        forall|i: int, j: int| 0 <= i < j < rem.len() ==> *rem[i] < *rem[j],
{
    assert(vstd::laws_cmp::obeys_cmp::<u128>());
    assert(vstd::laws_cmp::obeys_cmp::<&u128>());
    vstd::std_specs::btree::axiom_increasing_seq_meaning::<&u128>(rem);
    assert forall|i: int, j: int| 0 <= i < j < rem.len() implies *rem[i] < *rem[j] by {
        assert(vstd::std_specs::cmp::OrdSpec::cmp_spec(&rem[i], &rem[j]) is Less);
    }
}

impl ProtocolInstance {
    /// What the database records of this instance.
    pub open spec fn record(&self) -> InstanceView {
        (self.interface, self.opened_by_driver, self.opened_by_exclusive, self.usage@)
    }

    /// A freshly installed interface.
    pub fn fresh(interface: usize) -> (r: Self)
        ensures
            r.record() == fresh_instance(interface),
    {
        ProtocolInstance { interface, opened_by_driver: false, opened_by_exclusive: false, usage: Vec::new() }
    }
}

impl View for ProtocolDb {
    type V = Seq<Map<u128, InstanceView>>;

    /// For each handle, its protocols by GUID value and what is recorded of each.
    open spec fn view(&self) -> Self::V {
        self.handles@.map_values(|m: BTreeMap<u128, ProtocolInstance>| m@.map_values(|i: ProtocolInstance| i.record()))
    }
}

impl ProtocolDb {
    /// Every protocol instance keeps its by-driver and exclusive flags in
    /// step with its usage records.
    pub open spec fn wf(&self) -> bool {
        db_wf(self@)
    }

    /// The protocols on handle `h`.
    pub open spec fn protocols(&self, h: int) -> Map<u128, ProtocolInstance> {
        self.handles@[h - 1]@
    }

    /// Handle `h` was created and still holds at least one protocol.
    pub open spec fn is_valid_handle(&self, h: int) -> bool {
        &&& 0 < h <= self.handles@.len()
        &&& self.protocols(h).len() != 0
    }

    /// An empty database.
    pub fn new() -> (r: Self)
        ensures
            r@ == Seq::<Map<u128, InstanceView>>::empty(),
            r.wf(),
    {
        let r = ProtocolDb { handles: Vec::new() };
        assert(r@ =~= Seq::<Map<u128, InstanceView>>::empty());
        r
    }

    /// Whether `handle` is a handle that holds at least one protocol.
    pub fn validate_handle(&self, handle: usize) -> (r: bool)
        ensures
            r == self.is_valid_handle(handle as int),
    {
        if !(handle > 0 && handle <= self.handles.len()) {
            return false;
        }
        self.handles[handle - 1].len() != 0
    }

    /// Installs `interface` for `protocol` on `handle`, or on a new handle
    /// when `handle` is `None`; returns the handle.
    pub fn install_protocol_interface(&mut self, handle: Option<usize>, protocol: Guid, interface: usize) -> (r:
        Result<usize, EfiError>)
        requires
            old(self).handles@.len() < usize::MAX,
        ensures
            old(self).wf() ==> final(self).wf(),
            match handle {
                Some(h) => if !old(self).is_valid_handle(h as int) || old(self)@[h - 1].contains_key(protocol.0) {
                    r == Err::<usize, EfiError>(EfiError::InvalidParameter) && final(self)@ == old(self)@
                } else {
                    r == Ok::<usize, EfiError>(h) && final(self)@ == old(self)@.update(
                        h - 1,
                        old(self)@[h - 1].insert(protocol.0, fresh_instance(interface)),
                    )
                },
                None => r == Ok::<usize, EfiError>((old(self)@.len() + 1) as usize) && final(self)@ == old(
                    self,
                )@.push(Map::<u128, InstanceView>::empty().insert(protocol.0, fresh_instance(interface))),
            },
    {
        let index = match handle {
            Some(h) => {
                if !self.validate_handle(h) {
                    return Err(EfiError::InvalidParameter);
                }
                h - 1
            },
            None => {
                self.handles.push(BTreeMap::new());
                self.handles.len() - 1
            },
        };
        if self.handles[index].contains_key(&protocol.0) {
            assert(self@ =~= old(self)@);
            return Err(EfiError::InvalidParameter);
        }
        let ghost before = self.handles@;
        let inst = ProtocolInstance::fresh(interface);
        self.handles[index].insert(protocol.0, inst);
        proof {
            assert(self.handles@[index as int]@ == before[index as int]@.insert(protocol.0, inst));
            assert(self@[index as int] =~= before[index as int]@.map_values(|i: ProtocolInstance| i.record()).insert(
                protocol.0,
                fresh_instance(interface),
            ));
            assert forall|j: int| 0 <= j < self.handles@.len() && j != index implies self.handles@[j] == before[j] by {}
            match handle {
                Some(h) => {
                    assert(self@ =~= old(self)@.update(
                        h - 1,
                        old(self)@[h - 1].insert(protocol.0, fresh_instance(interface)),
                    ));
                },
                None => {
                    assert(before[index as int]@.map_values(|i: ProtocolInstance| i.record()) =~= Map::<
                        u128,
                        InstanceView,
                    >::empty());
                    assert(self@[index as int] =~= Map::<u128, InstanceView>::empty().insert(
                        protocol.0,
                        fresh_instance(interface),
                    ));
                    assert(self@ =~= old(self)@.push(
                        Map::<u128, InstanceView>::empty().insert(protocol.0, fresh_instance(interface)),
                    ));
                },
            }
        }
        proof {
            if old(self).wf() {
                lemma_fresh_wf(interface);
                match handle {
                    Some(h) => {
                        lemma_db_wf_insert(old(self)@, h - 1, protocol.0, fresh_instance(interface));
                    },
                    None => {
                        let m = Map::<u128, InstanceView>::empty().insert(protocol.0, fresh_instance(interface));
                        assert forall|g: int, q: u128| 0 <= g < self@.len() && #[trigger] self@[g].contains_key(q) implies instance_wf(
                            self@[g][q],
                        ) by {
                            if g < old(self)@.len() {
                                assert(self@[g] == old(self)@[g]);
                            }
                        }
                    },
                }
            }
        }
        Ok(index + 1)
    }

    /// Whether some usage record of the instance was opened by driver.
    fn in_use_by_driver(instance: &ProtocolInstance) -> (r: bool)
        ensures
            r == any_by_driver(instance.usage@),
    {
        let mut i: usize = 0;
        while i < instance.usage.len()
            invariant
                0 <= i <= instance.usage@.len(),
                forall|j: int| 0 <= j < i ==> #[trigger] instance.usage@[j].attributes & OPEN_PROTOCOL_BY_DRIVER == 0,
            decreases instance.usage@.len() - i,
        {
            if (instance.usage[i].attributes & OPEN_PROTOCOL_BY_DRIVER) != 0 {
                return true;
            }
            i = i + 1;
        }
        false
    }

    /// Removes the interface installed for `protocol` on `handle`. Refused
    /// while a driver has it open.
    pub fn uninstall_protocol_interface(&mut self, handle: usize, protocol: Guid, interface: usize) -> (r: Result<
        (),
        EfiError,
    >)
        ensures
            old(self).wf() ==> final(self).wf(),
            ({
                let v = old(self)@;
                if !old(self).is_valid_handle(handle as int) {
                    r == Err::<(), EfiError>(EfiError::InvalidParameter) && final(self)@ == v
                } else if !v[handle - 1].contains_key(protocol.0) || v[handle - 1][protocol.0].0 != interface {
                    r == Err::<(), EfiError>(EfiError::NotFound) && final(self)@ == v
                } else if any_by_driver(v[handle - 1][protocol.0].3) {
                    r == Err::<(), EfiError>(EfiError::AccessDenied) && final(self)@ == v
                } else {
                    r is Ok && final(self)@ == v.update(handle - 1, v[handle - 1].remove(protocol.0))
                }
            }),
    {
        if !self.validate_handle(handle) {
            return Err(EfiError::InvalidParameter);
        }
        let index = handle - 1;
        match self.handles[index].get(&protocol.0) {
            None => return Err(EfiError::NotFound),
            Some(instance) => {
                if instance.interface != interface {
                    return Err(EfiError::NotFound);
                }
                if Self::in_use_by_driver(instance) {
                    return Err(EfiError::AccessDenied);
                }
            },
        }
        let ghost before = self.handles@;
        let _ = self.handles[index].remove(&protocol.0);
        proof {
            assert(self@[index as int] =~= old(self)@[index as int].remove(protocol.0));
            assert forall|j: int| 0 <= j < self.handles@.len() && j != index implies self.handles@[j] == before[j] by {}
            assert(self@ =~= old(self)@.update(index as int, old(self)@[index as int].remove(protocol.0)));
            if old(self).wf() {
                lemma_db_wf_remove(old(self)@, index as int, protocol.0);
            }
        }
        Ok(())
    }

    /// Replaces the interface installed for `protocol` on `handle` by
    /// `new_interface`, with no usage. Refused while a driver has it open.
    pub fn reinstall_protocol_interface(
        &mut self,
        handle: usize,
        protocol: Guid,
        old_interface: usize,
        new_interface: usize,
    ) -> (r: Result<(), EfiError>)
        ensures
            old(self).wf() ==> final(self).wf(),
            ({
                let v = old(self)@;
                if !old(self).is_valid_handle(handle as int) {
                    r == Err::<(), EfiError>(EfiError::InvalidParameter) && final(self)@ == v
                } else if !v[handle - 1].contains_key(protocol.0) || v[handle - 1][protocol.0].0 != old_interface {
                    r == Err::<(), EfiError>(EfiError::NotFound) && final(self)@ == v
                } else if any_by_driver(v[handle - 1][protocol.0].3) {
                    r == Err::<(), EfiError>(EfiError::AccessDenied) && final(self)@ == v
                } else {
                    r is Ok && final(self)@ == v.update(
                        handle - 1,
                        v[handle - 1].insert(protocol.0, fresh_instance(new_interface)),
                    )
                }
            }),
    {
        if !self.validate_handle(handle) {
            return Err(EfiError::InvalidParameter);
        }
        let index = handle - 1;
        match self.handles[index].get(&protocol.0) {
            None => return Err(EfiError::NotFound),
            Some(instance) => {
                if instance.interface != old_interface {
                    return Err(EfiError::NotFound);
                }
                if Self::in_use_by_driver(instance) {
                    return Err(EfiError::AccessDenied);
                }
            },
        }
        let ghost before = self.handles@;
        let _ = self.handles[index].remove(&protocol.0);
        let inst = ProtocolInstance::fresh(new_interface);
        let _ = self.handles[index].insert(protocol.0, inst);
        proof {
            assert(self.handles@[index as int]@ == before[index as int]@.remove(protocol.0).insert(protocol.0, inst));
            assert(self@[index as int] =~= old(self)@[index as int].insert(protocol.0, fresh_instance(new_interface)));
            assert forall|j: int| 0 <= j < self.handles@.len() && j != index implies self.handles@[j] == before[j] by {}
            assert(self@ =~= old(self)@.update(
                index as int,
                old(self)@[index as int].insert(protocol.0, fresh_instance(new_interface)),
            ));
            if old(self).wf() {
                lemma_fresh_wf(new_interface);
                lemma_db_wf_insert(old(self)@, index as int, protocol.0, fresh_instance(new_interface));
            }
        }
        Ok(())
    }

    /// The handles that hold `protocol` (all handles ever created when it is `None`), in increasing order.
    pub fn locate_handles(&self, protocol: Option<Guid>) -> (r: Result<Vec<usize>, EfiError>)
        ensures
            (exists|h: int| #[trigger] handle_matches(self@, protocol, h)) ==> (r matches Ok(hs) && (forall|i: int, j: int|
                0 <= i < j < hs@.len() ==> hs@[i] < hs@[j]) && (forall|i: int|
                0 <= i < hs@.len() ==> handle_matches(self@, protocol, #[trigger] hs@[i] as int)) && (forall|h: int|
                #[trigger] handle_matches(self@, protocol, h) ==> hs@.contains(h as usize))),
            !(exists|h: int| #[trigger] handle_matches(self@, protocol, h)) ==> r == Err::<Vec<usize>, EfiError>(
                EfiError::NotFound,
            ),
    {
        let mut hs: Vec<usize> = Vec::new();
        let mut i: usize = 0;
        while i < self.handles.len()
            invariant
                0 <= i <= self.handles@.len(),
                forall|a: int, b: int| 0 <= a < b < hs@.len() ==> hs@[a] < hs@[b],
                forall|a: int| 0 <= a < hs@.len() ==> 1 <= #[trigger] hs@[a] <= i,
                forall|a: int| 0 <= a < hs@.len() ==> handle_matches(self@, protocol, #[trigger] hs@[a] as int),
                forall|h: int| 1 <= h <= i && #[trigger] handle_matches(self@, protocol, h) ==> hs@.contains(h as usize),
            decreases self.handles@.len() - i,
        {
            let ghost old_hs = hs@;
            let matched = match protocol {
                None => true,
                Some(p) => self.handles[i].contains_key(&p.0),
            };
            assert(self@[i as int] == self.handles@[i as int]@.map_values(|m: ProtocolInstance| m.record()));
            assert(matched == handle_matches(self@, protocol, (i + 1) as int));
            if matched {
                hs.push(i + 1);
                assert(handle_matches(self@, protocol, (i + 1) as int));
            }
            proof {
                assert forall|h: int| 1 <= h <= i + 1 && #[trigger] handle_matches(self@, protocol, h) implies hs@.contains(
                    h as usize,
                ) by {
                    if h == i + 1 {
                        assert(hs@[hs@.len() - 1] == h);
                    } else {
                        assert(old_hs.contains(h as usize));
                        let k = choose|k: int| 0 <= k < old_hs.len() && old_hs[k] == h as usize;
                        assert(hs@[k] == h as usize);
                    }
                }
            }
            i = i + 1;
        }
        if hs.len() == 0 {
            assert forall|h: int| !#[trigger] handle_matches(self@, protocol, h) by {
                if handle_matches(self@, protocol, h) {
                    assert(hs@.contains(h as usize));
                }
            }
            return Err(EfiError::NotFound);
        }
        assert(handle_matches(self@, protocol, hs@[0] as int));
        Ok(hs)
    }

    /// The interface of `protocol` on the first handle that holds it.
    pub fn locate_protocol(&self, protocol: Guid) -> (r: Result<usize, EfiError>)
        ensures
            r matches Ok(iface) ==> exists|i: int|
                0 <= i < self@.len() && #[trigger] self@[i].contains_key(protocol.0) && (forall|j: int|
                    0 <= j < i ==> !#[trigger] self@[j].contains_key(protocol.0)) && iface == self@[i][protocol.0].0,
            r is Err ==> r == Err::<usize, EfiError>(EfiError::NotFound) && forall|i: int|
                0 <= i < self@.len() ==> !#[trigger] self@[i].contains_key(protocol.0),
    {
        let mut i: usize = 0;
        while i < self.handles.len()
            invariant
                0 <= i <= self.handles@.len(),
                forall|j: int| 0 <= j < i ==> !#[trigger] self@[j].contains_key(protocol.0),
            decreases self.handles@.len() - i,
        {
            match self.handles[i].get(&protocol.0) {
                Some(instance) => {
                    assert(self@[i as int].contains_key(protocol.0));
                    return Ok(instance.interface);
                },
                None => {},
            }
            i = i + 1;
        }
        Err(EfiError::NotFound)
    }

    /// The interface of `protocol` on `handle`.
    pub fn get_interface_for_handle(&self, handle: usize, protocol: Guid) -> (r: Result<usize, EfiError>)
        ensures
            !self.is_valid_handle(handle as int) ==> r == Err::<usize, EfiError>(EfiError::InvalidParameter),
            self.is_valid_handle(handle as int) && !self@[handle - 1].contains_key(protocol.0) ==> r == Err::<
                usize,
                EfiError,
            >(EfiError::Unsupported),
            self.is_valid_handle(handle as int) && self@[handle - 1].contains_key(protocol.0) ==> r == Ok::<
                usize,
                EfiError,
            >(self@[handle - 1][protocol.0].0),
    {
        if !self.validate_handle(handle) {
            return Err(EfiError::InvalidParameter);
        }
        match self.handles[handle - 1].get(&protocol.0) {
            Some(instance) => Ok(instance.interface),
            None => Err(EfiError::Unsupported),
        }
    }

    /// The usage records of `protocol` on `handle`.
    pub fn get_open_protocol_information(&self, handle: usize, protocol: Guid) -> (r: Result<
        Vec<OpenProtocolInformation>,
        EfiError,
    >)
        ensures
            !self.is_valid_handle(handle as int) ==> (r matches Err(e) && e == EfiError::InvalidParameter),
            self.is_valid_handle(handle as int) && !self@[handle - 1].contains_key(protocol.0) ==> (r matches Err(e)
                && e == EfiError::NotFound),
            self.is_valid_handle(handle as int) && self@[handle - 1].contains_key(protocol.0) ==> (r matches Ok(u)
                && u@ == self@[handle - 1][protocol.0].3),
    {
        if !self.validate_handle(handle) {
            return Err(EfiError::InvalidParameter);
        }
        match self.handles[handle - 1].get(&protocol.0) {
            Some(instance) => {
                let mut out: Vec<OpenProtocolInformation> = Vec::new();
                let mut i: usize = 0;
                while i < instance.usage.len()
                    invariant
                        0 <= i <= instance.usage@.len(),
                        out@ == instance.usage@.subrange(0, i as int),
                    decreases instance.usage@.len() - i,
                {
                    out.push(instance.usage[i]);
                    assert(out@ =~= instance.usage@.subrange(0, i + 1));
                    i = i + 1;
                }
                assert(out@ =~= instance.usage@);
                Ok(out)
            },
            None => Err(EfiError::NotFound),
        }
    }

    /// Index of the first record of `instance` that matches `user`.
    fn find_match(instance: &ProtocolInstance, user: &OpenProtocolInformation) -> (r: Option<usize>)
        ensures
            r is None ==> first_match(instance.usage@, *user) == -1,
            r matches Some(i) ==> first_match(instance.usage@, *user) == i && i < instance.usage@.len(),
    {
        let mut i: usize = 0;
        while i < instance.usage.len()
            invariant
                0 <= i <= instance.usage@.len(),
                first_match(instance.usage@.subrange(0, i as int), *user) == -1,
            decreases instance.usage@.len() - i,
        {
            let u = instance.usage[i];
            proof {
                assert(instance.usage@.subrange(0, i + 1).drop_last() =~= instance.usage@.subrange(0, i as int));
            }
            if u.agent_handle == user.agent_handle && u.controller_handle == user.controller_handle && u.attributes
                == user.attributes {
                proof {
                    lemma_first_match_prefix(instance.usage@, *user, i + 1);
                }
                return Some(i);
            }
            i = i + 1;
        }
        assert(instance.usage@.subrange(0, i as int) =~= instance.usage@);
        None
    }

    /// Records that `agent_handle` opened `protocol` on `handle` (for
    /// `controller_handle`) with `attributes`, following the rules of the
    /// UEFI `OpenProtocol` service that do not involve drivers.
    pub fn add_protocol_usage(
        &mut self,
        handle: usize,
        protocol: Guid,
        agent_handle: Option<usize>,
        controller_handle: Option<usize>,
        attributes: u32,
    ) -> (r: Result<(), EfiError>)
        requires
            old(self).is_valid_handle(handle as int) && (agent_handle matches Some(a) ==> old(self).is_valid_handle(
                a as int,
            )) && (controller_handle matches Some(c) ==> old(self).is_valid_handle(c as int)) && old(
                self,
            )@[handle - 1].contains_key(protocol.0) ==> count_room(
                old(self)@[handle - 1][protocol.0],
                handle,
                agent_handle,
                controller_handle,
                attributes,
            ),
        ensures
            old(self).wf() ==> final(self).wf(),
            old(self).is_valid_handle(handle as int) && (agent_handle matches Some(a) ==> old(self).is_valid_handle(
                a as int,
            )) && (controller_handle matches Some(c) ==> old(self).is_valid_handle(c as int)) && old(
                self,
            )@[handle - 1].contains_key(protocol.0) ==> final(self)@[handle - 1].contains_key(protocol.0) && (
            r, final(self)@[handle - 1][protocol.0]) == add_usage_result(
                old(self)@[handle - 1][protocol.0],
                handle,
                agent_handle,
                controller_handle,
                attributes,
            ),
            ({
                let v = old(self)@;
                let inst = v[handle - 1][protocol.0];
                let user = OpenProtocolInformation { agent_handle, controller_handle, attributes, open_count: 1 };
                let m = first_match(inst.3, user);
                if !old(self).is_valid_handle(handle as int) || (agent_handle matches Some(a) && !old(
                    self,
                ).is_valid_handle(a as int)) || (controller_handle matches Some(c) && !old(self).is_valid_handle(
                    c as int,
                )) {
                    r == Err::<(), EfiError>(EfiError::InvalidParameter) && final(self)@ == v
                } else if !v[handle - 1].contains_key(protocol.0) {
                    r == Err::<(), EfiError>(EfiError::Unsupported) && final(self)@ == v
                } else if !open_request_valid(handle, agent_handle, controller_handle, attributes) {
                    r == Err::<(), EfiError>(EfiError::InvalidParameter) && final(self)@ == v
                } else if inst.1 && m >= 0 {
                    r == Err::<(), EfiError>(EfiError::AlreadyStarted) && final(self)@ == v
                } else if !inst.2 && m >= 0 {
                    r is Ok && final(self)@ == v.update(
                        handle - 1,
                        v[handle - 1].insert(
                            protocol.0,
                            (
                                inst.0,
                                inst.1,
                                inst.2,
                                inst.3.update(
                                    m,
                                    OpenProtocolInformation { open_count: (inst.3[m].open_count + 1) as u32, ..inst.3[m] },
                                ),
                            ),
                        ),
                    )
                } else if (attributes == OPEN_PROTOCOL_BY_DRIVER || attributes == OPEN_PROTOCOL_EXCLUSIVE || attributes
                    == OPEN_PROTOCOL_BY_DRIVER_EXCLUSIVE) && (inst.1 || inst.2) {
                    r == Err::<(), EfiError>(EfiError::AccessDenied) && final(self)@ == v
                } else if agent_handle is None {
                    r is Ok && final(self)@ == v
                } else {
                    r is Ok && final(self)@ == v.update(
                        handle - 1,
                        v[handle - 1].insert(
                            protocol.0,
                            (
                                inst.0,
                                inst.1 || attributes & OPEN_PROTOCOL_BY_DRIVER != 0,
                                inst.2 || attributes & OPEN_PROTOCOL_EXCLUSIVE != 0,
                                inst.3.push(user),
                            ),
                        ),
                    )
                }
            }),
    {
        if !self.validate_handle(handle) {
            return Err(EfiError::InvalidParameter);
        }
        if let Some(a) = agent_handle {
            if !self.validate_handle(a) {
                return Err(EfiError::InvalidParameter);
            }
        }
        if let Some(c) = controller_handle {
            if !self.validate_handle(c) {
                return Err(EfiError::InvalidParameter);
            }
        }
        let index = handle - 1;
        let ghost before = self.handles@;
        let mut instance = match self.handles[index].remove(&protocol.0) {
            Some(i) => i,
            None => {
                assert forall|j: int| 0 <= j < self.handles@.len() implies self.handles@[j]@ == before[j]@ by {}
                assert(self@ =~= old(self)@);
                return Err(EfiError::Unsupported);
            },
        };
        let ghost old_inst = instance;
        let ghost removed = self.handles@;
        let r = Self::update_usage(&mut instance, handle, agent_handle, controller_handle, attributes);
        self.handles[index].insert(protocol.0, instance);
        proof {
            assert(self.handles@[index as int]@ == before[index as int]@.remove(protocol.0).insert(protocol.0, instance));
            assert forall|j: int| 0 <= j < self.handles@.len() && j != index implies self.handles@[j] == before[j] by {}
            assert(self@[index as int] =~= old(self)@[index as int].insert(protocol.0, instance.record()));
            assert(self@ =~= old(self)@.update(index as int, old(self)@[index as int].insert(protocol.0, instance.record())));
            if instance.record() == old_inst.record() {
                assert(old(self)@[index as int].insert(protocol.0, instance.record()) =~= old(self)@[index as int]);
            }
            assert(old(self)@[index as int].contains_key(protocol.0));
            assert(old_inst.record() == old(self)@[index as int][protocol.0]);
            assert(self@[index as int][protocol.0] == instance.record());
            assert((r, instance.record()) == add_usage_result(
                old_inst.record(),
                handle,
                agent_handle,
                controller_handle,
                attributes,
            ));
            if old(self).wf() {
                lemma_add_usage_wf(old_inst.record(), handle, agent_handle, controller_handle, attributes);
                lemma_db_wf_insert(old(self)@, index as int, protocol.0, instance.record());
            }
        }
        r
    }

    /// The part of `add_protocol_usage` that works on the instance.
    fn update_usage(
        instance: &mut ProtocolInstance,
        handle: usize,
        agent_handle: Option<usize>,
        controller_handle: Option<usize>,
        attributes: u32,
    ) -> (r: Result<(), EfiError>)
        requires
            count_room(old(instance).record(), handle, agent_handle, controller_handle, attributes),
        ensures
            (r, final(instance).record()) == add_usage_result(
                old(instance).record(),
                handle,
                agent_handle,
                controller_handle,
                attributes,
            ),
    {
        let new_user = match OpenProtocolInformation::new(handle, agent_handle, controller_handle, attributes) {
            Ok(u) => u,
            Err(e) => return Err(e),
        };
        let exact_match = Self::find_match(instance, &new_user);
        if instance.opened_by_driver && exact_match.is_some() {
            return Err(EfiError::AlreadyStarted);
        }
        if !instance.opened_by_exclusive {
            if let Some(m) = exact_match {
                let u = instance.usage[m];
                instance.usage.set(m, OpenProtocolInformation { open_count: u.open_count + 1, ..u });
                return Ok(());
            }
        }
        if attributes == OPEN_PROTOCOL_BY_DRIVER || attributes == OPEN_PROTOCOL_EXCLUSIVE || attributes
            == OPEN_PROTOCOL_BY_DRIVER_EXCLUSIVE {
            if instance.opened_by_exclusive || instance.opened_by_driver {
                return Err(EfiError::AccessDenied);
            }
        }
        if agent_handle.is_none() {
            return Ok(());
        }
        if (new_user.attributes & OPEN_PROTOCOL_BY_DRIVER) != 0 {
            instance.opened_by_driver = true;
        }
        if (new_user.attributes & OPEN_PROTOCOL_EXCLUSIVE) != 0 {
            instance.opened_by_exclusive = true;
        }
        instance.usage.push(new_user);
        Ok(())
    }

    /// Removes every usage record of `protocol` on `handle` by
    /// `agent_handle` for `controller_handle`, following the UEFI
    /// `CloseProtocol` service.
    pub fn remove_protocol_usage(
        &mut self,
        handle: usize,
        protocol: Guid,
        agent_handle: Option<usize>,
        controller_handle: Option<usize>,
    ) -> (r: Result<(), EfiError>)
        ensures
            old(self).wf() ==> final(self).wf(),
            ({
                let v = old(self)@;
                let inst = v[handle - 1][protocol.0];
                if !old(self).is_valid_handle(handle as int) || (agent_handle matches Some(a) && !old(
                    self,
                ).is_valid_handle(a as int)) || (controller_handle matches Some(c) && !old(self).is_valid_handle(
                    c as int,
                )) {
                    r == Err::<(), EfiError>(EfiError::InvalidParameter) && final(self)@ == v
                } else if !v[handle - 1].contains_key(protocol.0) {
                    r == Err::<(), EfiError>(EfiError::Unsupported) && final(self)@ == v
                } else if !any_by_user(inst.3, agent_handle, controller_handle) {
                    r == Err::<(), EfiError>(EfiError::NotFound) && final(self)@ == v
                } else {
                    r is Ok && final(self)@ == v.update(
                        handle - 1,
                        v[handle - 1].insert(protocol.0, closed_record(inst, agent_handle, controller_handle)),
                    )
                }
            }),
    {
        if !self.validate_handle(handle) {
            return Err(EfiError::InvalidParameter);
        }
        if let Some(a) = agent_handle {
            if !self.validate_handle(a) {
                return Err(EfiError::InvalidParameter);
            }
        }
        if let Some(c) = controller_handle {
            if !self.validate_handle(c) {
                return Err(EfiError::InvalidParameter);
            }
        }
        let index = handle - 1;
        let ghost before = self.handles@;
        let mut instance = match self.handles[index].remove(&protocol.0) {
            Some(i) => i,
            None => {
                assert forall|j: int| 0 <= j < self.handles@.len() implies self.handles@[j]@ == before[j]@ by {}
                assert(self@ =~= old(self)@);
                return Err(EfiError::Unsupported);
            },
        };
        let ghost old_inst = instance;
        let r = Self::close_usage(&mut instance, agent_handle, controller_handle);
        self.handles[index].insert(protocol.0, instance);
        proof {
            assert(self.handles@[index as int]@ == before[index as int]@.remove(protocol.0).insert(protocol.0, instance));
            assert forall|j: int| 0 <= j < self.handles@.len() && j != index implies self.handles@[j] == before[j] by {}
            assert(self@[index as int] =~= old(self)@[index as int].insert(protocol.0, instance.record()));
            assert(self@ =~= old(self)@.update(index as int, old(self)@[index as int].insert(protocol.0, instance.record())));
            if instance.record() == old_inst.record() {
                assert(old(self)@[index as int].insert(protocol.0, instance.record()) =~= old(self)@[index as int]);
            }
            if old(self).wf() {
                assert(old(self)@[index as int].contains_key(protocol.0));
                assert(old_inst.record() == old(self)@[index as int][protocol.0]);
                lemma_closed_wf(old_inst.record(), agent_handle, controller_handle);
                lemma_db_wf_insert(old(self)@, index as int, protocol.0, instance.record());
            }
        }
        r
    }

    /// The part of `remove_protocol_usage` that works on the instance.
    fn close_usage(instance: &mut ProtocolInstance, agent_handle: Option<usize>, controller_handle: Option<usize>) -> (r:
        Result<(), EfiError>)
        ensures
            !any_by_user(old(instance).usage@, agent_handle, controller_handle) ==> r == Err::<(), EfiError>(
                EfiError::NotFound,
            ) && final(instance).record() == old(instance).record(),
            any_by_user(old(instance).usage@, agent_handle, controller_handle) ==> r is Ok && final(instance).record()
                == closed_record(old(instance).record(), agent_handle, controller_handle),
    {
        let ghost u = instance.usage@;
        let ghost pred = |x: OpenProtocolInformation| !(x.agent_handle == agent_handle && x.controller_handle == controller_handle);
        let mut kept: Vec<OpenProtocolInformation> = Vec::new();
        let mut removed = false;
        let mut by_driver = false;
        let mut by_exclusive = false;
        let mut i: usize = 0;
        while i < instance.usage.len()
            invariant
                0 <= i <= u.len(),
                instance.usage@ == u,
                pred == (|x: OpenProtocolInformation| !(x.agent_handle == agent_handle && x.controller_handle == controller_handle)),
                kept@ == u.subrange(0, i as int).filter(pred),
                removed == any_by_user(u.subrange(0, i as int), agent_handle, controller_handle),
                by_driver == any_removed_with(u.subrange(0, i as int), agent_handle, controller_handle, OPEN_PROTOCOL_BY_DRIVER),
                by_exclusive == any_removed_with(u.subrange(0, i as int), agent_handle, controller_handle, OPEN_PROTOCOL_EXCLUSIVE),
            decreases u.len() - i,
        {
            let x = instance.usage[i];
            proof {
                reveal(Seq::filter);
                assert(u.subrange(0, i + 1).drop_last() =~= u.subrange(0, i as int));
                assert(u.subrange(0, i + 1).last() == x);
            }
            if x.agent_handle == agent_handle && x.controller_handle == controller_handle {
                if (x.attributes & OPEN_PROTOCOL_BY_DRIVER) != 0 {
                    by_driver = true;
                }
                if (x.attributes & OPEN_PROTOCOL_EXCLUSIVE) != 0 {
                    by_exclusive = true;
                }
                removed = true;
            } else {
                kept.push(x);
            }
            proof {
                let s1 = u.subrange(0, i + 1);
                let s0 = u.subrange(0, i as int);
                assert forall|j: int| 0 <= j < s0.len() implies s1[j] == s0[j] by {}
                if removed && !any_by_user(s0, agent_handle, controller_handle) {
                    assert(s1[i as int] == x);
                }
                if any_by_user(s1, agent_handle, controller_handle) {
                    let j = choose|j: int| 0 <= j < s1.len() && #[trigger] user_is(s1[j], agent_handle, controller_handle);
                    if j < i {
                        assert(user_is(s0[j], agent_handle, controller_handle));
                    }
                }
                if any_removed_with(s1, agent_handle, controller_handle, OPEN_PROTOCOL_BY_DRIVER) {
                    let j = choose|j: int| 0 <= j < s1.len() && #[trigger] user_is(s1[j], agent_handle, controller_handle)
                        && s1[j].attributes & OPEN_PROTOCOL_BY_DRIVER != 0;
                    if j < i {
                        assert(user_is(s0[j], agent_handle, controller_handle));
                    }
                }
                if any_removed_with(s1, agent_handle, controller_handle, OPEN_PROTOCOL_EXCLUSIVE) {
                    let j = choose|j: int| 0 <= j < s1.len() && #[trigger] user_is(s1[j], agent_handle, controller_handle)
                        && s1[j].attributes & OPEN_PROTOCOL_EXCLUSIVE != 0;
                    if j < i {
                        assert(user_is(s0[j], agent_handle, controller_handle));
                    }
                }
                if by_driver && !any_removed_with(s0, agent_handle, controller_handle, OPEN_PROTOCOL_BY_DRIVER) {
                    assert(user_is(s1[i as int], agent_handle, controller_handle));
                }
                if by_exclusive && !any_removed_with(s0, agent_handle, controller_handle, OPEN_PROTOCOL_EXCLUSIVE) {
                    assert(user_is(s1[i as int], agent_handle, controller_handle));
                }
                if any_removed_with(s0, agent_handle, controller_handle, OPEN_PROTOCOL_BY_DRIVER) {
                    let j = choose|j: int| 0 <= j < s0.len() && #[trigger] user_is(s0[j], agent_handle, controller_handle)
                        && s0[j].attributes & OPEN_PROTOCOL_BY_DRIVER != 0;
                    assert(user_is(s1[j], agent_handle, controller_handle));
                }
                if any_removed_with(s0, agent_handle, controller_handle, OPEN_PROTOCOL_EXCLUSIVE) {
                    let j = choose|j: int| 0 <= j < s0.len() && #[trigger] user_is(s0[j], agent_handle, controller_handle)
                        && s0[j].attributes & OPEN_PROTOCOL_EXCLUSIVE != 0;
                    assert(user_is(s1[j], agent_handle, controller_handle));
                }
                if any_by_user(s0, agent_handle, controller_handle) {
                    let j = choose|j: int| 0 <= j < s0.len() && #[trigger] user_is(s0[j], agent_handle, controller_handle);
                    assert(user_is(s1[j], agent_handle, controller_handle));
                }
            }
            i = i + 1;
        }
        assert(u.subrange(0, u.len() as int) =~= u);
        if !removed {
            return Err(EfiError::NotFound);
        }
        if by_driver {
            instance.opened_by_driver = false;
        }
        if by_exclusive {
            instance.opened_by_exclusive = false;
        }
        instance.usage = kept;
        Ok(())
    }

    /// The GUIDs of the protocols on `handle`, in increasing order.
    pub fn get_protocols_on_handle(&self, handle: usize) -> (r: Result<Vec<Guid>, EfiError>)
        ensures
            !self.is_valid_handle(handle as int) ==> (r matches Err(e) && e == EfiError::InvalidParameter),
            self.is_valid_handle(handle as int) ==> (r matches Ok(gs) && gs@.map_values(|g: Guid| g.0).to_set()
                == self@[handle - 1].dom() && gs@.len() == self@[handle - 1].dom().len() && forall|i: int, j: int|
                0 <= i < j < gs@.len() ==> gs@[i].0 < gs@[j].0),
    {
        if !self.validate_handle(handle) {
            return Err(EfiError::InvalidParameter);
        }
        let m = &self.handles[handle - 1];
        let ghost ks = vstd::std_specs::btree::spec_keys_iter(m).remaining().unref();
        proof {
            vstd::std_specs::btree::axiom_spec_keys_iter(m);
        }
        let mut out: Vec<Guid> = Vec::new();
        for k in it: m.keys()
            invariant
                it.seq() == vstd::std_specs::btree::spec_keys_iter(m).remaining(),
                ks == it.seq().unref(),
                out@.map_values(|g: Guid| g.0) == ks.subrange(0, it.index() as int),
            ensures
                out@.map_values(|g: Guid| g.0) == ks,
        {
            let ghost i0 = it.index();
            let ghost before = out@;
            assert(*k == ks[i0 as int]);
            assert(i0 < ks.len());
            assert(before.map_values(|g: Guid| g.0) == ks.subrange(0, i0 as int));
            out.push(Guid(*k));
            assert(out@ == before.push(Guid(*k)));
            assert(ks.subrange(0, i0 + 1) =~= ks.subrange(0, i0 as int).push(ks[i0 as int]));
            assert(out@.map_values(|g: Guid| g.0) =~= ks.subrange(0, i0 + 1));
        }
        proof {
            let rem = vstd::std_specs::btree::spec_keys_iter(m).remaining();
            assert(self@[handle - 1].dom() =~= m@.dom());
            lemma_increasing_keys(rem);
            assert forall|i: int, j: int| 0 <= i < j < out@.len() implies out@[i].0 < out@[j].0 by {
                assert(out@.map_values(|g: Guid| g.0)[i] == out@[i].0);
                assert(out@.map_values(|g: Guid| g.0)[j] == out@[j].0);
            }
        }
        Ok(out)
    }
}

/// Uninstalling an interface right after installing it on an existing
/// handle succeeds and gives the database back as it was; in between, the
/// handle gives out the installed interface.
pub proof fn lemma_uninstall_undoes_install(
    v0: Seq<Map<u128, InstanceView>>,
    h: int,
    protocol: Guid,
    interface: usize,
)
    requires
        1 <= h <= v0.len(),
        !v0[h - 1].contains_key(protocol.0),
    ensures
        ({
            let v1 = v0.update(h - 1, v0[h - 1].insert(protocol.0, fresh_instance(interface)));
            &&& v1[h - 1].contains_key(protocol.0)
            &&& v1[h - 1][protocol.0].0 == interface
            &&& !any_by_driver(v1[h - 1][protocol.0].3)
            &&& v1.update(h - 1, v1[h - 1].remove(protocol.0)) == v0
        }),
{
    let v1 = v0.update(h - 1, v0[h - 1].insert(protocol.0, fresh_instance(interface)));
    assert(v1[h - 1].remove(protocol.0) =~= v0[h - 1]);
    assert(v1.update(h - 1, v1[h - 1].remove(protocol.0)) =~= v0);
}

} // verus!
