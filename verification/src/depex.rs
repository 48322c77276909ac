//! UEFI dependency expressions (DEPEX): parsing the byte encoding into
//! opcodes and evaluating them against the protocol database.
use vstd::prelude::*;
use crate::protocol_db::{be_value, Guid, ProtocolDb, InstanceView};

verus! {

/// Size of a GUID in bytes.
pub const GUID_SIZE: usize = 16;

/// Number of `false` entries the evaluation stack starts with.
pub const DEPEX_STACK_SIZE_INCREMENT: usize = 0x100;

/// A dependency expression opcode.
#[derive(Debug, Clone, Copy, PartialEq, Eq, Structural)]
pub enum Opcode {
    /// Must be the first and only opcode; schedules before a driver.
    Before,
    /// Must be the first and only opcode; schedules after a driver.
    After,
    /// Pushes whether the protocol is installed; the flag records that it was found.
    Push(Option<Guid>, bool),
    /// Logical AND of the two operands on top of the stack.
    And,
    /// Logical OR of the two operands on top of the stack.
    Or,
    /// Logical NOT of the operand on top of the stack.
    Not,
    /// Pushes true.
    True,
    /// Pushes false.
    False,
    /// Ends the expression; its value is the top of the stack.
    End,
    /// Schedule on request; must be the first opcode.
    Sor,
    /// An unrecognized opcode.
    Unknown,
}

/// The opcode that byte `b` denotes; a PUSH with its GUID when `guid` gives it.
pub open spec fn opcode_of(b: u8, guid: Option<Guid>) -> Opcode {
    if b == 0x00 {
        Opcode::Before
    } else if b == 0x01 {
        Opcode::After
    } else if b == 0x02 {
        Opcode::Push(guid, false)
    } else if b == 0x03 {
        Opcode::And
    } else if b == 0x04 {
        Opcode::Or
    } else if b == 0x05 {
        Opcode::Not
    } else if b == 0x06 {
        Opcode::True
    } else if b == 0x07 {
        Opcode::False
    } else if b == 0x08 {
        Opcode::End
    } else if b == 0x09 {
        Opcode::Sor
    } else {
        Opcode::Unknown
    }
}

/// The byte encoding of the opcodes: BEFORE is 0x00, AFTER 0x01, PUSH 0x02
/// (followed by its GUID), AND 0x03, OR 0x04, NOT 0x05, TRUE 0x06, FALSE
/// 0x07, END 0x08 and SOR 0x09; every other byte is an unknown opcode.
pub proof fn lemma_opcode_encoding(b: u8, guid: Option<Guid>)
    ensures
        opcode_of(0x00, guid) == Opcode::Before,
        opcode_of(0x01, guid) == Opcode::After,
        opcode_of(0x02, guid) == Opcode::Push(guid, false),
        opcode_of(0x03, guid) == Opcode::And,
        opcode_of(0x04, guid) == Opcode::Or,
        opcode_of(0x05, guid) == Opcode::Not,
        opcode_of(0x06, guid) == Opcode::True,
        opcode_of(0x07, guid) == Opcode::False,
        opcode_of(0x08, guid) == Opcode::End,
        opcode_of(0x09, guid) == Opcode::Sor,
        b > 0x09 ==> opcode_of(b, guid) == Opcode::Unknown,
{
}

/// The GUID made of the 16 bytes of `s` from `start`.
pub open spec fn guid_at(s: Seq<u8>, start: int) -> Guid {
    Guid(be_value(s.subrange(start, start + 16)) as u128)
}

impl Opcode {
    /// The opcode that starts `bytes`. A PUSH takes its GUID from the next 16
    /// bytes only when more than 17 bytes are given.
    pub fn from_bytes(bytes: &[u8]) -> (r: Opcode)
        requires
            bytes@.len() >= 1,
        ensures
            r == opcode_of(
                bytes@[0],
                if bytes@.len() > GUID_SIZE + 1 {
                    Some(guid_at(bytes@, 1))
                } else {
                    None
                },
            ),
    {
        let b = bytes[0];
        if b == 0x00 {
            Opcode::Before
        } else if b == 0x01 {
            Opcode::After
        } else if b == 0x02 {
            if bytes.len() > GUID_SIZE + 1 {
                Opcode::Push(Some(guid_from_slice(bytes, 1)), false)
            } else {
                Opcode::Push(None, false)
            }
        } else if b == 0x03 {
            Opcode::And
        } else if b == 0x04 {
            Opcode::Or
        } else if b == 0x05 {
            Opcode::Not
        } else if b == 0x06 {
            Opcode::True
        } else if b == 0x07 {
            Opcode::False
        } else if b == 0x08 {
            Opcode::End
        } else if b == 0x09 {
            Opcode::Sor
        } else {
            Opcode::Unknown
        }
    }
}

/// Reads a GUID through the `uuid` crate: `uuid::Uuid::from_slice_le`, then
/// `Uuid::to_bytes_le` to take the bytes back out. In the uuid source,
/// `from_slice_le` fails exactly when the slice is not 16 bytes long, and
/// `to_bytes_le` undoes the byte swap that `from_slice_le` makes, so the
/// bytes come back as they were given.
#[verifier::external_body]
fn uuid_bytes_from_slice(slice: &[u8]) -> (r: Option<[u8; 16]>)
    ensures
        slice@.len() == 16 ==> r is Some && r->0@ == slice@,
        slice@.len() != 16 ==> r is None,
{
    match uuid::Uuid::from_slice_le(slice) {
        Ok(u) => Some(u.to_bytes_le()),
        Err(_) => None,
    }
}

/// The GUID made of the 16 bytes of `bytes` from `start`.
pub fn guid_from_slice(bytes: &[u8], start: usize) -> (r: Guid)
    requires
        start + 16 <= bytes@.len(),
    ensures
        r == guid_at(bytes@, start as int),
{
    let mut v: Vec<u8> = Vec::new();
    let mut i: usize = 0;
    while i < 16
        invariant
            0 <= i <= 16,
            start + 16 <= bytes@.len(),
            bytes@.len() == bytes.len(),
            v@ == bytes@.subrange(start as int, start + i),
        decreases 16 - i,
    {
        v.push(bytes[start + i]);
        assert(v@ =~= bytes@.subrange(start as int, start + i + 1));
        i = i + 1;
    }
    match uuid_bytes_from_slice(v.as_slice()) {
        Some(a) => Guid::from_bytes(&a),
        None => {
            assert(false);
            Guid(0)
        },
    }
}

/// The encoding from `i` on is complete: every PUSH is followed by its 16 GUID bytes.
pub open spec fn well_formed_from(s: Seq<u8>, i: int) -> bool
    decreases s.len() - i,
{
    if i < 0 || i >= s.len() {
        true
    } else if s[i] == 0x02 {
        i + 17 <= s.len() && well_formed_from(s, i + 17)
    } else {
        well_formed_from(s, i + 1)
    }
}

/// Whether the encoding is complete: every PUSH is followed by its 16 GUID bytes.
pub fn is_well_formed(bytes: &[u8]) -> (r: bool)
    ensures
        r == well_formed_from(bytes@, 0),
{
    let mut i: usize = 0;
    while i < bytes.len()
        invariant
            0 <= i <= bytes@.len(),
            well_formed_from(bytes@, 0) == well_formed_from(bytes@, i as int),
        decreases bytes@.len() - i,
    {
        if bytes[i] == 0x02 {
            if bytes.len() - i < 17 {
                return false;
            }
            i = i + 17;
        } else {
            i = i + 1;
        }
    }
    true
}

/// The opcodes encoded from byte `i` on.
pub open spec fn parse_from(s: Seq<u8>, i: int) -> Seq<Opcode>
    decreases s.len() - i,
{
    if i < 0 || i >= s.len() {
        Seq::empty()
    } else if s[i] == 0x02 {
        if i + 17 <= s.len() {
            seq![Opcode::Push(Some(guid_at(s, i + 1)), false)] + parse_from(s, i + 17)
        } else {
            Seq::empty()
        }
    } else {
        seq![opcode_of(s[i], None)] + parse_from(s, i + 1)
    }
}

/// Iterates over the opcodes of an encoded dependency expression.
pub struct DepexParser {
    /// The encoded expression.
    pub expression: Vec<u8>,
    /// Position of the next opcode.
    pub index: usize,
}

impl DepexParser {
    /// A parser at the start of `expression`.
    pub fn new(expression: &[u8]) -> (r: Self)
        ensures
            r.expression@ == expression@,
            r.index == 0,
    {
        let mut v: Vec<u8> = Vec::new();
        let mut i: usize = 0;
        while i < expression.len()
            invariant
                0 <= i <= expression@.len(),
                v@ == expression@.subrange(0, i as int),
            decreases expression@.len() - i,
        {
            v.push(expression[i]);
            assert(v@ =~= expression@.subrange(0, i + 1));
            i = i + 1;
        }
        assert(v@ =~= expression@);
        DepexParser { expression: v, index: 0 }
    }

    /// The next opcode, or `None` at the end of the expression. A PUSH
    /// reads its GUID from the 16 bytes that follow it.
    pub fn next(&mut self) -> (r: Option<Opcode>)
        requires
            old(self).index < old(self).expression@.len() && old(self).expression@[old(self).index as int] == 0x02
                ==> old(self).index + 17 <= old(self).expression@.len(),
        ensures
            final(self).expression@ == old(self).expression@,
            ({
                let s = old(self).expression@;
                let i = old(self).index as int;
                if i >= s.len() {
                    r is None && final(self).index == old(self).index
                } else if s[i] == 0x02 {
                    r == Some(Opcode::Push(Some(guid_at(s, i + 1)), false)) && final(self).index == i + 17
                } else {
                    r == Some(opcode_of(s[i], None)) && final(self).index == i + 1
                }
            }),
    {
        if self.index >= self.expression.len() {
            return None;
        }
        let b = self.expression[self.index];
        let mut opcode = Opcode::from_bytes(&[b]);
        if b == 0x02 {
            let guid_start = self.index + 1;
            opcode = Opcode::Push(Some(guid_from_slice(self.expression.as_slice(), guid_start)), false);
            self.index = self.index + GUID_SIZE;
        }
        self.index = self.index + 1;
        Some(opcode)
    }
}

/// A dependency expression.
#[derive(Debug)]
pub struct Depex {
    /// Its opcodes.
    pub expression: Vec<Opcode>,
}

/// The top of the stack and the stack below it; an empty stack gives `false`.
pub open spec fn pop_val(s: Seq<bool>) -> (bool, Seq<bool>) {
    if s.len() > 0 {
        (s.last(), s.drop_last())
    } else {
        (false, s)
    }
}

/// The protocol is installed on some handle.
pub open spec fn located(db: Seq<Map<u128, InstanceView>>, g: Guid) -> bool {
    exists|i: int| 0 <= i < db.len() && #[trigger] db[i].contains_key(g.0)
}

/// The value of evaluating the opcodes from `i` on with the given stack,
/// and the opcodes afterwards (a PUSH whose protocol is found is marked found).
pub open spec fn eval_from(
    ops: Seq<Opcode>,
    i: int,
    stack: Seq<bool>,
    db: Seq<Map<u128, InstanceView>>,
) -> (bool, Seq<Opcode>)
    decreases ops.len() - i,
{
    if i < 0 || i >= ops.len() {
        (false, ops)
    } else {
        match ops[i] {
            Opcode::Before => (false, ops),
            Opcode::After => (false, ops),
            Opcode::Sor => if i != 0 {
                (false, ops)
            } else {
                eval_from(ops, i + 1, stack, db)
            },
            Opcode::Push(guid, present) => match guid {
                None => (false, ops),
                Some(g) => if present {
                    eval_from(ops, i + 1, stack.push(true), db)
                } else if located(db, g) {
                    eval_from(ops.update(i, Opcode::Push(guid, true)), i + 1, stack.push(true), db)
                } else {
                    eval_from(ops, i + 1, stack.push(false), db)
                },
            },
            Opcode::And => {
                let (a, s1) = pop_val(stack);
                let (b, s2) = pop_val(s1);
                eval_from(ops, i + 1, s2.push(a && b), db)
            },
            Opcode::Or => {
                let (a, s1) = pop_val(stack);
                let (b, s2) = pop_val(s1);
                eval_from(ops, i + 1, s2.push(a || b), db)
            },
            Opcode::Not => {
                let (a, s1) = pop_val(stack);
                eval_from(ops, i + 1, s1.push(!a), db)
            },
            Opcode::True => eval_from(ops, i + 1, stack.push(true), db),
            Opcode::False => eval_from(ops, i + 1, stack.push(false), db),
            Opcode::End => (pop_val(stack).0, ops),
            Opcode::Unknown => (false, ops),
        }
    }
}

/// Whether evaluating the opcodes from `i` on with the given stack reaches,
/// before an END, an opcode that may not stand there: a BEFORE, an AFTER, an
/// unknown opcode, a PUSH without a GUID or a SOR that is not the first opcode.
pub open spec fn misplaced_from(
    ops: Seq<Opcode>,
    i: int,
    stack: Seq<bool>,
    db: Seq<Map<u128, InstanceView>>,
) -> bool
    decreases ops.len() - i,
{
    if i < 0 || i >= ops.len() {
        false
    } else {
        match ops[i] {
            Opcode::Before => true,
            Opcode::After => true,
            Opcode::Unknown => true,
            Opcode::Sor => if i != 0 {
                true
            } else {
                misplaced_from(ops, i + 1, stack, db)
            },
            Opcode::Push(guid, present) => match guid {
                None => true,
                Some(g) => if present {
                    misplaced_from(ops, i + 1, stack.push(true), db)
                } else if located(db, g) {
                    misplaced_from(ops.update(i, Opcode::Push(guid, true)), i + 1, stack.push(true), db)
                } else {
                    misplaced_from(ops, i + 1, stack.push(false), db)
                },
            },
            Opcode::And => {
                let (a, s1) = pop_val(stack);
                let (b, s2) = pop_val(s1);
                misplaced_from(ops, i + 1, s2.push(a && b), db)
            },
            Opcode::Or => {
                let (a, s1) = pop_val(stack);
                let (b, s2) = pop_val(s1);
                misplaced_from(ops, i + 1, s2.push(a || b), db)
            },
            Opcode::Not => {
                let (a, s1) = pop_val(stack);
                misplaced_from(ops, i + 1, s1.push(!a), db)
            },
            Opcode::True => misplaced_from(ops, i + 1, stack.push(true), db),
            Opcode::False => misplaced_from(ops, i + 1, stack.push(false), db),
            Opcode::End => false,
        }
    }
}

/// The stack that evaluation starts with.
pub open spec fn initial_stack() -> Seq<bool> {
    Seq::new(DEPEX_STACK_SIZE_INCREMENT as nat, |i: int| false)
}

impl Depex {
    /// The expression that `bytes` encode.
    pub fn from_bytes(bytes: &[u8]) -> (r: Self)
        requires
            well_formed_from(bytes@, 0),
        ensures
            r.expression@ == parse_from(bytes@, 0),
    {
        let mut parser = DepexParser::new(bytes);
        let mut expression: Vec<Opcode> = Vec::new();
        loop
            invariant
                parser.expression@ == bytes@,
                parser.index <= bytes@.len(),
                well_formed_from(bytes@, parser.index as int),
                expression@ + parse_from(bytes@, parser.index as int) == parse_from(bytes@, 0),
            decreases bytes@.len() - parser.index,
        {
            let ghost before = expression@;
            let ghost idx = parser.index;
            match parser.next() {
                Some(op) => {
                    expression.push(op);
                    assert(expression@ + parse_from(bytes@, parser.index as int) =~= before + (seq![op]
                        + parse_from(bytes@, parser.index as int)));
                },
                None => {
                    assert(parse_from(bytes@, parser.index as int) =~= Seq::<Opcode>::empty());
                    assert(expression@ =~= parse_from(bytes@, 0));
                    return Depex { expression };
                },
            }
        }
    }

    /// The expression made of the given opcodes.
    pub fn from_opcodes(opcodes: &[Opcode]) -> (r: Self)
        ensures
            r.expression@ == opcodes@,
    {
        let mut v: Vec<Opcode> = Vec::new();
        let mut i: usize = 0;
        while i < opcodes.len()
            invariant
                0 <= i <= opcodes@.len(),
                v@ == opcodes@.subrange(0, i as int),
            decreases opcodes@.len() - i,
        {
            v.push(opcodes[i]);
            assert(v@ =~= opcodes@.subrange(0, i + 1));
            i = i + 1;
        }
        assert(v@ =~= opcodes@);
        Depex { expression: v }
    }

    /// Evaluates the expression against the database, or `None` where the
    /// evaluation reaches an opcode that may not stand where it is. PUSH
    /// opcodes whose protocol is found are marked found, and are not looked
    /// up again.
    pub fn try_eval(&mut self, protocol_db: &ProtocolDb) -> (r: Option<bool>)
        ensures
            r is None <==> misplaced_from(old(self).expression@, 0, initial_stack(), protocol_db@),
            r matches Some(v) ==> (v, final(self).expression@) == eval_from(
                old(self).expression@,
                0,
                initial_stack(),
                protocol_db@,
            ),
    {
        let mut stack: Vec<bool> = Vec::new();
        let mut k: usize = 0;
        while k < DEPEX_STACK_SIZE_INCREMENT
            invariant
                0 <= k <= DEPEX_STACK_SIZE_INCREMENT,
                stack@ == Seq::new(k as nat, |i: int| false),
            decreases DEPEX_STACK_SIZE_INCREMENT - k,
        {
            stack.push(false);
            assert(stack@ =~= Seq::new((k + 1) as nat, |i: int| false));
            k = k + 1;
        }
        let ghost db = protocol_db@;
        let mut index: usize = 0;
        while index < self.expression.len()
            invariant
                0 <= index <= self.expression@.len(),
                self.expression@.len() == old(self).expression@.len(),
                db == protocol_db@,
                eval_from(old(self).expression@, 0, initial_stack(), db) == eval_from(
                    self.expression@,
                    index as int,
                    stack@,
                    db,
                ),
                misplaced_from(old(self).expression@, 0, initial_stack(), db) == misplaced_from(
                    self.expression@,
                    index as int,
                    stack@,
                    db,
                ),
            decreases self.expression@.len() - index,
        {
            let opcode = self.expression[index];
            match opcode {
                Opcode::Before | Opcode::After => {
                    return None;
                },
                Opcode::Sor => {
                    if index != 0 {
                        return None;
                    }
                },
                Opcode::Push(guid, present) => {
                    match guid {
                        None => {
                            return None;
                        },
                        Some(g) => {
                            if present {
                                stack.push(true);
                            } else {
                                let result = protocol_db.locate_protocol(g);
                                if result.is_ok() {
                                    self.expression.set(index, Opcode::Push(guid, true));
                                    stack.push(true);
                                } else {
                                    proof {
                                        assert forall|i: int| 0 <= i < db.len() implies !#[trigger] db[i].contains_key(g.0) by {}
                                    }
                                    stack.push(false);
                                }
                            }
                        },
                    }
                },
                Opcode::And => {
                    let a = match stack.pop() {
                        Some(v) => v,
                        None => false,
                    };
                    let b = match stack.pop() {
                        Some(v) => v,
                        None => false,
                    };
                    stack.push(a && b);
                },
                Opcode::Or => {
                    let a = match stack.pop() {
                        Some(v) => v,
                        None => false,
                    };
                    let b = match stack.pop() {
                        Some(v) => v,
                        None => false,
                    };
                    stack.push(a || b);
                },
                Opcode::Not => {
                    let a = match stack.pop() {
                        Some(v) => v,
                        None => false,
                    };
                    stack.push(!a);
                },
                Opcode::True => {
                    stack.push(true);
                },
                Opcode::False => {
                    stack.push(false);
                },
                Opcode::End => {
                    let a = match stack.pop() {
                        Some(v) => v,
                        None => false,
                    };
                    return Some(a);
                },
                Opcode::Unknown => {
                    return None;
                },
            }
            index = index + 1;
        }
        Some(false)
    }

    /// Evaluates the expression against the database. PUSH opcodes whose
    /// protocol is found are marked found, and are not looked up again. The
    /// evaluation must not reach an opcode that may not stand where it is
    /// (a BEFORE, an AFTER, an unknown opcode, a PUSH without a GUID, a SOR
    /// that is not first); `try_eval` tells where it does.
    pub fn eval(&mut self, protocol_db: &ProtocolDb) -> (r: bool)
        requires
            !misplaced_from(old(self).expression@, 0, initial_stack(), protocol_db@),
        ensures
            (r, final(self).expression@) == eval_from(old(self).expression@, 0, initial_stack(), protocol_db@),
    {
        match self.try_eval(protocol_db) {
            Some(v) => v,
            None => false,
        }
    }
}

/// Evaluation from `i` on leaves the opcodes before `i` alone and keeps their number.
proof fn lemma_eval_keeps_prefix(ops: Seq<Opcode>, i: int, stack: Seq<bool>, db: Seq<Map<u128, InstanceView>>)
    ensures
        eval_from(ops, i, stack, db).1.len() == ops.len(),
        forall|k: int| 0 <= k < i && k < ops.len() ==> #[trigger] eval_from(ops, i, stack, db).1[k] == ops[k],
    decreases ops.len() - i,
{
    if 0 <= i < ops.len() {
        match ops[i] {
            Opcode::Sor => {
                if i == 0 {
                    lemma_eval_keeps_prefix(ops, i + 1, stack, db);
                }
            },
            Opcode::Push(guid, present) => {
                match guid {
                    None => {},
                    Some(g) => {
                        if present {
                            lemma_eval_keeps_prefix(ops, i + 1, stack.push(true), db);
                        } else if located(db, g) {
                            lemma_eval_keeps_prefix(ops.update(i, Opcode::Push(guid, true)), i + 1, stack.push(true), db);
                        } else {
                            lemma_eval_keeps_prefix(ops, i + 1, stack.push(false), db);
                        }
                    },
                }
            },
            Opcode::And => {
                let (a, s1) = pop_val(stack);
                let (b, s2) = pop_val(s1);
                lemma_eval_keeps_prefix(ops, i + 1, s2.push(a && b), db);
            },
            Opcode::Or => {
                let (a, s1) = pop_val(stack);
                let (b, s2) = pop_val(s1);
                lemma_eval_keeps_prefix(ops, i + 1, s2.push(a || b), db);
            },
            Opcode::Not => {
                let (a, s1) = pop_val(stack);
                lemma_eval_keeps_prefix(ops, i + 1, s1.push(!a), db);
            },
            Opcode::True => {
                lemma_eval_keeps_prefix(ops, i + 1, stack.push(true), db);
            },
            Opcode::False => {
                lemma_eval_keeps_prefix(ops, i + 1, stack.push(false), db);
            },
            _ => {},
        }
    }
}

/// `b` is `a`, or `a` is a PUSH not yet marked found whose protocol is
/// installed and `b` is that PUSH marked found.
pub open spec fn same_or_marked(a: Opcode, b: Opcode, db: Seq<Map<u128, InstanceView>>) -> bool {
    b == a || (a matches Opcode::Push(Some(g), false) && b == Opcode::Push(Some(g), true) && located(db, g))
}

/// Evaluation keeps the number of opcodes and changes none of them but for
/// marking found a PUSH whose protocol is installed; no mark is taken away.
pub proof fn lemma_eval_only_marks_found(
    ops: Seq<Opcode>,
    i: int,
    stack: Seq<bool>,
    db: Seq<Map<u128, InstanceView>>,
)
    ensures
        eval_from(ops, i, stack, db).1.len() == ops.len(),
        forall|k: int| 0 <= k < ops.len() ==> same_or_marked(ops[k], #[trigger] eval_from(ops, i, stack, db).1[k], db),
    decreases ops.len() - i,
{
    if 0 <= i < ops.len() {
        match ops[i] {
            Opcode::Sor => {
                if i == 0 {
                    lemma_eval_only_marks_found(ops, i + 1, stack, db);
                }
            },
            Opcode::Push(guid, present) => {
                match guid {
                    None => {},
                    Some(g) => {
                        if present {
                            lemma_eval_only_marks_found(ops, i + 1, stack.push(true), db);
                        } else if located(db, g) {
                            let ops1 = ops.update(i, Opcode::Push(guid, true));
                            lemma_eval_only_marks_found(ops1, i + 1, stack.push(true), db);
                            let res = eval_from(ops1, i + 1, stack.push(true), db).1;
                            assert forall|k: int| 0 <= k < ops.len() implies same_or_marked(ops[k], #[trigger] res[k], db) by {
                                assert(same_or_marked(ops1[k], res[k], db));
                            }
                        } else {
                            lemma_eval_only_marks_found(ops, i + 1, stack.push(false), db);
                        }
                    },
                }
            },
            Opcode::And => {
                let (a, s1) = pop_val(stack);
                let (b, s2) = pop_val(s1);
                lemma_eval_only_marks_found(ops, i + 1, s2.push(a && b), db);
            },
            Opcode::Or => {
                let (a, s1) = pop_val(stack);
                let (b, s2) = pop_val(s1);
                lemma_eval_only_marks_found(ops, i + 1, s2.push(a || b), db);
            },
            Opcode::Not => {
                let (a, s1) = pop_val(stack);
                lemma_eval_only_marks_found(ops, i + 1, s1.push(!a), db);
            },
            Opcode::True => {
                lemma_eval_only_marks_found(ops, i + 1, stack.push(true), db);
            },
            Opcode::False => {
                lemma_eval_only_marks_found(ops, i + 1, stack.push(false), db);
            },
            _ => {},
        }
    }
}

/// Evaluation stops at a BEFORE, an AFTER, an unknown opcode, a PUSH
/// without a GUID or a SOR that is not the first opcode: `try_eval` gives
/// `None` there, and the value of the expression is `false` with the
/// opcodes unchanged.
pub proof fn lemma_eval_stops_at_misplaced_opcode(
    ops: Seq<Opcode>,
    i: int,
    stack: Seq<bool>,
    db: Seq<Map<u128, InstanceView>>,
)
    requires
        0 <= i < ops.len(),
        ops[i] is Before || ops[i] is After || ops[i] is Unknown || ops[i] matches Opcode::Push(None, _) || (
        ops[i] is Sor && i != 0),
    ensures
        eval_from(ops, i, stack, db) == (false, ops),
        misplaced_from(ops, i, stack, db),
{
}

/// An opcode that pushes a value: TRUE, FALSE, or a PUSH with its GUID.
pub open spec fn is_operand(op: Opcode) -> bool {
    op is True || op is False || op matches Opcode::Push(Some(_), _)
}

/// The value that an operand pushes: TRUE is true, FALSE is false, and a
/// PUSH is whether its protocol was found before or is installed now.
pub open spec fn operand_value(op: Opcode, db: Seq<Map<u128, InstanceView>>) -> bool {
    match op {
        Opcode::True => true,
        Opcode::Push(Some(g), present) => present || located(db, g),
        _ => false,
    }
}

/// AND, OR and NOT are the logical operations on the values of their
/// operands: `x y AND END` is worth `x && y`, `x y OR END` is worth `x || y`
/// and `x NOT END` is worth `!x`, whatever the stack holds below them; no
/// such expression stops the evaluation.
pub proof fn lemma_eval_logic(x: Opcode, y: Opcode, stack: Seq<bool>, db: Seq<Map<u128, InstanceView>>)
    requires
        is_operand(x),
        is_operand(y),
    ensures
        eval_from(seq![x, y, Opcode::And, Opcode::End], 0, stack, db).0 == (operand_value(x, db) && operand_value(
            y,
            db,
        )),
        eval_from(seq![x, y, Opcode::Or, Opcode::End], 0, stack, db).0 == (operand_value(x, db) || operand_value(
            y,
            db,
        )),
        eval_from(seq![x, Opcode::Not, Opcode::End], 0, stack, db).0 == !operand_value(x, db),
        !misplaced_from(seq![x, y, Opcode::And, Opcode::End], 0, stack, db),
        !misplaced_from(seq![x, y, Opcode::Or, Opcode::End], 0, stack, db),
        !misplaced_from(seq![x, Opcode::Not, Opcode::End], 0, stack, db),
{
    reveal_with_fuel(eval_from, 5);
    reveal_with_fuel(misplaced_from, 5);
}

/// Evaluating an expression a second time against the same database gives
/// the same value and the same opcodes: a PUSH that the first evaluation
/// marked found stands for a protocol that is still installed.
pub proof fn lemma_eval_stable(ops: Seq<Opcode>, i: int, stack: Seq<bool>, db: Seq<Map<u128, InstanceView>>)
    ensures
        eval_from(eval_from(ops, i, stack, db).1, i, stack, db) == eval_from(ops, i, stack, db),
    decreases ops.len() - i,
{
    if 0 <= i < ops.len() {
        match ops[i] {
            Opcode::Sor => {
                if i == 0 {
                    lemma_eval_stable(ops, i + 1, stack, db);
                    lemma_eval_keeps_prefix(ops, i + 1, stack, db);
                }
            },
            Opcode::Push(guid, present) => {
                match guid {
                    None => {},
                    Some(g) => {
                        if present {
                            lemma_eval_stable(ops, i + 1, stack.push(true), db);
                            lemma_eval_keeps_prefix(ops, i + 1, stack.push(true), db);
                        } else if located(db, g) {
                            let ops1 = ops.update(i, Opcode::Push(guid, true));
                            lemma_eval_stable(ops1, i + 1, stack.push(true), db);
                            lemma_eval_keeps_prefix(ops1, i + 1, stack.push(true), db);
                        } else {
                            lemma_eval_stable(ops, i + 1, stack.push(false), db);
                            lemma_eval_keeps_prefix(ops, i + 1, stack.push(false), db);
                        }
                    },
                }
            },
            Opcode::And => {
                let (a, s1) = pop_val(stack);
                let (b, s2) = pop_val(s1);
                lemma_eval_stable(ops, i + 1, s2.push(a && b), db);
                lemma_eval_keeps_prefix(ops, i + 1, s2.push(a && b), db);
            },
            Opcode::Or => {
                let (a, s1) = pop_val(stack);
                let (b, s2) = pop_val(s1);
                lemma_eval_stable(ops, i + 1, s2.push(a || b), db);
                lemma_eval_keeps_prefix(ops, i + 1, s2.push(a || b), db);
            },
            Opcode::Not => {
                let (a, s1) = pop_val(stack);
                lemma_eval_stable(ops, i + 1, s1.push(!a), db);
                lemma_eval_keeps_prefix(ops, i + 1, s1.push(!a), db);
            },
            Opcode::True => {
                lemma_eval_stable(ops, i + 1, stack.push(true), db);
                lemma_eval_keeps_prefix(ops, i + 1, stack.push(true), db);
            },
            Opcode::False => {
                lemma_eval_stable(ops, i + 1, stack.push(false), db);
                lemma_eval_keeps_prefix(ops, i + 1, stack.push(false), db);
            },
            _ => {},
        }
    }
}

} // verus!
