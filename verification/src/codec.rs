//! Stable serialization of records. The byte format is the crate's own:
//! fixed-width little-endian scalars followed by length-prefixed UTF-8 text
//! blocks. Encoding is canonical, decoding is strict, and the two are proved
//! inverse to each other, so a record written to a segment is read back
//! equal in all fields.

use vstd::prelude::*;
use vstd::bytes::{
    lemma_auto_spec_u16_to_from_le_bytes, lemma_auto_spec_u64_to_from_le_bytes,
    spec_u16_from_le_bytes, spec_u16_to_le_bytes, spec_u64_from_le_bytes, spec_u64_to_le_bytes,
    u16_from_le_bytes,
    u16_to_le_bytes, u64_from_le_bytes, u64_to_le_bytes,
};
use vstd::slice::slice_subrange;
use vstd::string::StrSliceExecFns;
use vstd::utf8::{decode_utf8_encode_utf8, encode_utf8, encode_utf8_valid_utf8};
use crate::model::{Member, MemberView, Task, TaskView};
use crate::text::utf8_to_string;

verus! {

/// Upper bound on the encoded length of one text field.
pub const MAX_TEXT_BYTES: usize = 300;

/// Upper bound on the serialized size of one record; records above it are
/// rejected before anything is written.
pub const MAX_RECORD_BYTES: usize = 1024;

/// A text field whose encoding fits in a record.
pub open spec fn text_fits(s: Seq<char>) -> bool {
    encode_utf8(s).len() <= MAX_TEXT_BYTES
}

pub open spec fn byte_of_bool(b: bool) -> u8 {
    if b {
        1u8
    } else {
        0u8
    }
}

/// Canonical encoding of an optional timestamp: a tag byte, then the value,
/// with zero standing in when there is none.
pub open spec fn opt_time_bytes(o: Option<u64>) -> Seq<u8> {
    match o {
        Option::None => seq![0u8] + spec_u64_to_le_bytes(0u64),
        Option::Some(t) => seq![1u8] + spec_u64_to_le_bytes(t),
    }
}

/// A length-prefixed UTF-8 text block.
pub open spec fn text_block(s: Seq<char>) -> Seq<u8> {
    spec_u16_to_le_bytes(encode_utf8(s).len() as u16) + encode_utf8(s)
}

pub open spec fn task_encodable(t: TaskView) -> bool {
    text_fits(t.title) && text_fits(t.description) && text_fits(t.assigned_to)
}

/// The serialized form of a task.
pub open spec fn spec_encode_task(t: TaskView) -> Seq<u8> {
    spec_u64_to_le_bytes(t.id) + seq![byte_of_bool(t.is_done)] + spec_u64_to_le_bytes(t.start_time)
        + seq![t.deadline] + opt_time_bytes(t.updated_at) + text_block(t.title) + text_block(
        t.description,
    ) + text_block(t.assigned_to)
}

pub open spec fn member_encodable(m: MemberView) -> bool {
    text_fits(m.principal_id)
}

/// The serialized form of a member.
pub open spec fn spec_encode_member(m: MemberView) -> Seq<u8> {
    spec_u64_to_le_bytes(m.id) + text_block(m.principal_id)
}

/// A text block for `s` occupies `b` from `at` on.
pub open spec fn block_at(b: Seq<u8>, at: int, s: Seq<char>) -> bool {
    &&& 0 <= at
    &&& at + 2 + encode_utf8(s).len() <= b.len()
    &&& b.subrange(at, at + 2 + encode_utf8(s).len()) == text_block(s)
}

/// Where the components of an encoded task lie in the byte sequence.
proof fn lemma_task_layout(t: TaskView)
    requires
        task_encodable(t),
    ensures
        spec_encode_task(t).len() == 33 + encode_utf8(t.title).len() + encode_utf8(
            t.description,
        ).len() + encode_utf8(t.assigned_to).len(),
        spec_encode_task(t).subrange(0, 8) == spec_u64_to_le_bytes(t.id),
        spec_encode_task(t)[8] == byte_of_bool(t.is_done),
        spec_encode_task(t).subrange(9, 17) == spec_u64_to_le_bytes(t.start_time),
        spec_encode_task(t)[17] == t.deadline,
        spec_encode_task(t)[18] == byte_of_bool(t.updated_at is Some),
        spec_encode_task(t).subrange(19, 27) == spec_u64_to_le_bytes(
            match t.updated_at {
                Option::Some(u) => u,
                Option::None => 0u64,
            },
        ),
        block_at(spec_encode_task(t), 27, t.title),
        block_at(spec_encode_task(t), 27 + 2 + encode_utf8(t.title).len() as int, t.description),
        block_at(
            spec_encode_task(t),
            27 + 2 + encode_utf8(t.title).len() + 2 + encode_utf8(t.description).len() as int,
            t.assigned_to,
        ),
{
    lemma_auto_spec_u64_to_from_le_bytes();
    lemma_auto_spec_u16_to_from_le_bytes();
    let e = spec_encode_task(t);
    let lt = encode_utf8(t.title).len() as int;
    let ld = encode_utf8(t.description).len() as int;
    let la = encode_utf8(t.assigned_to).len() as int;
    assert(e.subrange(0, 8) =~= spec_u64_to_le_bytes(t.id));
    assert(e.subrange(9, 17) =~= spec_u64_to_le_bytes(t.start_time));
    assert(e.subrange(19, 27) =~= spec_u64_to_le_bytes(
        match t.updated_at {
            Option::Some(u) => u,
            Option::None => 0u64,
        },
    ));
    assert(e.subrange(27, 27 + 2 + lt) =~= text_block(t.title));
    assert(e.subrange(27 + 2 + lt, 27 + 2 + lt + 2 + ld) =~= text_block(t.description));
    assert(e.subrange(27 + 2 + lt + 2 + ld, 27 + 2 + lt + 2 + ld + 2 + la) =~= text_block(
        t.assigned_to,
    ));
}

/// Where the components of an encoded member lie in the byte sequence.
proof fn lemma_member_layout(m: MemberView)
    requires
        member_encodable(m),
    ensures
        spec_encode_member(m).len() == 10 + encode_utf8(m.principal_id).len(),
        spec_encode_member(m).subrange(0, 8) == spec_u64_to_le_bytes(m.id),
        block_at(spec_encode_member(m), 8, m.principal_id),
{
    lemma_auto_spec_u64_to_from_le_bytes();
    lemma_auto_spec_u16_to_from_le_bytes();
    let e = spec_encode_member(m);
    let lp = encode_utf8(m.principal_id).len() as int;
    assert(e.subrange(0, 8) =~= spec_u64_to_le_bytes(m.id));
    assert(e.subrange(8, 10 + lp) =~= text_block(m.principal_id));
}

/// The length prefix and the body of a block can be read back from the
/// enclosing byte sequence.
proof fn lemma_block_parts(b: Seq<u8>, at: int, s: Seq<char>)
    requires
        block_at(b, at, s),
    ensures
        b.subrange(at, at + 2) == spec_u16_to_le_bytes(encode_utf8(s).len() as u16),
        b.subrange(at + 2, at + 2 + encode_utf8(s).len()) == encode_utf8(s),
{
    lemma_auto_spec_u16_to_from_le_bytes();
    let l = encode_utf8(s).len() as int;
    assert(b.subrange(at, at + 2) =~= b.subrange(at, at + 2 + l).subrange(0, 2));
    assert(b.subrange(at + 2, at + 2 + l) =~= b.subrange(at, at + 2 + l).subrange(2, 2 + l));
    assert(text_block(s).subrange(0, 2) =~= spec_u16_to_le_bytes(encode_utf8(s).len() as u16));
    assert(text_block(s).subrange(2, 2 + l) =~= encode_utf8(s));
}

/// Two fitting blocks at one position hold the same text.
proof fn lemma_block_unique(b: Seq<u8>, at: int, s1: Seq<char>, s2: Seq<char>)
    requires
        text_fits(s1),
        text_fits(s2),
        block_at(b, at, s1),
        block_at(b, at, s2),
    ensures
        s1 == s2,
        encode_utf8(s1).len() == encode_utf8(s2).len(),
{
    lemma_auto_spec_u16_to_from_le_bytes();
    lemma_block_parts(b, at, s1);
    lemma_block_parts(b, at, s2);
    let l1 = encode_utf8(s1).len();
    let l2 = encode_utf8(s2).len();
    assert(spec_u16_from_le_bytes(spec_u16_to_le_bytes(l1 as u16)) == spec_u16_from_le_bytes(
        spec_u16_to_le_bytes(l2 as u16),
    ));
    assert(l1 == l2);
    assert(encode_utf8(s1) == encode_utf8(s2));
    vstd::utf8::encode_utf8_decode_utf8(s1);
    vstd::utf8::encode_utf8_decode_utf8(s2);
}

/// Encoding is injective: equal serialized forms come from equal tasks.
pub proof fn lemma_encode_task_injective(t1: TaskView, t2: TaskView)
    requires
        task_encodable(t1),
        task_encodable(t2),
        spec_encode_task(t1) == spec_encode_task(t2),
    ensures
        t1 =~= t2,
{
    lemma_auto_spec_u64_to_from_le_bytes();
    lemma_task_layout(t1);
    lemma_task_layout(t2);
    let e = spec_encode_task(t1);
    lemma_block_unique(e, 27, t1.title, t2.title);
    let lt = encode_utf8(t1.title).len() as int;
    lemma_block_unique(e, 27 + 2 + lt, t1.description, t2.description);
    let ld = encode_utf8(t1.description).len() as int;
    lemma_block_unique(e, 27 + 2 + lt + 2 + ld, t1.assigned_to, t2.assigned_to);
    assert(spec_u64_from_le_bytes(spec_u64_to_le_bytes(t1.id)) == spec_u64_from_le_bytes(
        spec_u64_to_le_bytes(t2.id),
    ));
    assert(spec_u64_from_le_bytes(spec_u64_to_le_bytes(t1.start_time)) == spec_u64_from_le_bytes(
        spec_u64_to_le_bytes(t2.start_time),
    ));
    assert(byte_of_bool(t1.is_done) == byte_of_bool(t2.is_done));
    assert(byte_of_bool(t1.updated_at is Some) == byte_of_bool(t2.updated_at is Some));
    if t1.updated_at is Some {
        let u1 = t1.updated_at->0;
        let u2 = t2.updated_at->0;
        assert(spec_u64_from_le_bytes(spec_u64_to_le_bytes(u1)) == spec_u64_from_le_bytes(
            spec_u64_to_le_bytes(u2),
        ));
    }
}

/// Encoding is injective: equal serialized forms come from equal members.
pub proof fn lemma_encode_member_injective(m1: MemberView, m2: MemberView)
    requires
        member_encodable(m1),
        member_encodable(m2),
        spec_encode_member(m1) == spec_encode_member(m2),
    ensures
        m1 =~= m2,
{
    lemma_auto_spec_u64_to_from_le_bytes();
    lemma_member_layout(m1);
    lemma_member_layout(m2);
    let e = spec_encode_member(m1);
    lemma_block_unique(e, 8, m1.principal_id, m2.principal_id);
    assert(spec_u64_from_le_bytes(spec_u64_to_le_bytes(m1.id)) == spec_u64_from_le_bytes(
        spec_u64_to_le_bytes(m2.id),
    ));
}

/// Appends a length-prefixed text block.
fn push_text_block(out: &mut Vec<u8>, bytes: Vec<u8>)
    requires
        bytes@.len() <= MAX_TEXT_BYTES,
    ensures
        final(out)@ == old(out)@ + spec_u16_to_le_bytes(bytes@.len() as u16) + bytes@,
{
    let mut len_bytes = u16_to_le_bytes(bytes.len() as u16);
    out.append(&mut len_bytes);
    let mut body = bytes;
    out.append(&mut body);
}

/// Serializes a task; rejects one whose text fields do not fit.
pub fn encode_task(t: &Task) -> (r: Option<Vec<u8>>)
    ensures
        match r {
            Some(b) => task_encodable(t@) && b@ == spec_encode_task(t@) && b@.len()
                <= MAX_RECORD_BYTES,
            None => !task_encodable(t@),
        },
{
    let title_b = t.title.as_str().as_bytes_vec();
    let desc_b = t.description.as_str().as_bytes_vec();
    let asg_b = t.assigned_to.as_str().as_bytes_vec();
    if title_b.len() > MAX_TEXT_BYTES || desc_b.len() > MAX_TEXT_BYTES || asg_b.len()
        > MAX_TEXT_BYTES {
        return None;
    }
    let mut out = u64_to_le_bytes(t.id);
    out.push(if t.is_done {
        1u8
    } else {
        0u8
    });
    let mut start_b = u64_to_le_bytes(t.start_time);
    out.append(&mut start_b);
    out.push(t.deadline);
    match t.updated_at {
        Option::Some(u) => {
            out.push(1u8);
            let mut u_b = u64_to_le_bytes(u);
            out.append(&mut u_b);
        },
        Option::None => {
            out.push(0u8);
            let mut u_b = u64_to_le_bytes(0u64);
            out.append(&mut u_b);
        },
    }
    push_text_block(&mut out, title_b);
    push_text_block(&mut out, desc_b);
    push_text_block(&mut out, asg_b);
    proof {
        lemma_auto_spec_u64_to_from_le_bytes();
        lemma_auto_spec_u16_to_from_le_bytes();
        assert(out@ =~= spec_encode_task(t@));
    }
    Some(out)
}

/// Serializes a member; rejects one whose identity string does not fit.
pub fn encode_member(m: &Member) -> (r: Option<Vec<u8>>)
    ensures
        match r {
            Some(b) => member_encodable(m@) && b@ == spec_encode_member(m@) && b@.len()
                <= MAX_RECORD_BYTES,
            None => !member_encodable(m@),
        },
{
    let principal_b = m.principal_id.as_str().as_bytes_vec();
    if principal_b.len() > MAX_TEXT_BYTES {
        return None;
    }
    let mut out = u64_to_le_bytes(m.id);
    push_text_block(&mut out, principal_b);
    proof {
        lemma_auto_spec_u64_to_from_le_bytes();
        lemma_auto_spec_u16_to_from_le_bytes();
        assert(out@ =~= spec_encode_member(m@));
    }
    Some(out)
}

/// Reads one length-prefixed text block starting at `at`.
fn read_text_block(b: &Vec<u8>, at: usize) -> (r: Option<(String, usize)>)
    requires
        at <= b@.len(),
    ensures
        match r {
            Some(pair) => {
                &&& text_fits(pair.0@)
                &&& block_at(b@, at as int, pair.0@)
                &&& pair.1 == at + 2 + encode_utf8(pair.0@).len()
            },
            None => forall|s: Seq<char>| text_fits(s) ==> !block_at(b@, at as int, s),
        },
{
    proof {
        lemma_auto_spec_u16_to_from_le_bytes();
    }
    let n = b.len();
    if n - at < 2 {
        return None;
    }
    let len = u16_from_le_bytes(slice_subrange(b.as_slice(), at, at + 2)) as usize;
    if len > MAX_TEXT_BYTES {
        proof {
            assert forall|s: Seq<char>| text_fits(s) implies !block_at(b@, at as int, s) by {
                if block_at(b@, at as int, s) {
                    lemma_block_parts(b@, at as int, s);
                }
            }
        }
        return None;
    }
    if n - at - 2 < len {
        proof {
            assert forall|s: Seq<char>| text_fits(s) implies !block_at(b@, at as int, s) by {
                if block_at(b@, at as int, s) {
                    lemma_block_parts(b@, at as int, s);
                }
            }
        }
        return None;
    }
    let seg = slice_subrange(b.as_slice(), at + 2, at + 2 + len);
    match utf8_to_string(seg) {
        Option::None => {
            proof {
                assert forall|s: Seq<char>| text_fits(s) implies !block_at(b@, at as int, s) by {
                    if block_at(b@, at as int, s) {
                        lemma_block_parts(b@, at as int, s);
                        encode_utf8_valid_utf8(s);
                    }
                }
            }
            None
        },
        Option::Some(text) => {
            proof {
                decode_utf8_encode_utf8(seg@);
                assert(encode_utf8(text@) == seg@);
                assert(b@.subrange(at as int, at + 2 + len) =~= b@.subrange(at as int, at + 2)
                    + b@.subrange(at + 2, at + 2 + len));
                assert(b@.subrange(at as int, at + 2) =~= spec_u16_to_le_bytes(
                    spec_u16_from_le_bytes(b@.subrange(at as int, at + 2)),
                ));
                assert(b@.subrange(at as int, at + 2 + len) =~= text_block(text@));
            }
            Some((text, at + 2 + len))
        },
    }
}

/// Deserializes a task: succeeds exactly on the canonical serialized form of
/// an encodable task, and then returns that task.
pub fn decode_task(b: &Vec<u8>) -> (r: Option<Task>)
    ensures
        match r {
            Some(t) => task_encodable(t@) && b@ == spec_encode_task(t@),
            None => forall|tv: TaskView|
                task_encodable(tv) ==> b@ != #[trigger] spec_encode_task(tv),
        },
{
    proof {
        lemma_auto_spec_u64_to_from_le_bytes();
    }
    let n = b.len();
    if n < 33 {
        proof {
            assert forall|tv: TaskView| task_encodable(tv) implies b@ != spec_encode_task(tv) by {
                lemma_task_layout(tv);
            }
        }
        return None;
    }
    let id = u64_from_le_bytes(slice_subrange(b.as_slice(), 0, 8));
    let done_byte = b[8];
    let start_time = u64_from_le_bytes(slice_subrange(b.as_slice(), 9, 17));
    let deadline = b[17];
    let tag = b[18];
    let upd_val = u64_from_le_bytes(slice_subrange(b.as_slice(), 19, 27));
    if done_byte > 1 || tag > 1 || (tag == 0 && upd_val != 0) {
        proof {
            assert forall|tv: TaskView| task_encodable(tv) implies b@ != spec_encode_task(tv) by {
                lemma_task_layout(tv);
                if b@ == spec_encode_task(tv) {
                    assert(b@.subrange(19, 27) == spec_u64_to_le_bytes(
                        match tv.updated_at {
                            Option::Some(u) => u,
                            Option::None => 0u64,
                        },
                    ));
                }
            }
        }
        return None;
    }
    let title = match read_text_block(b, 27) {
        Option::Some(p) => p,
        Option::None => {
            proof {
                assert forall|tv: TaskView| task_encodable(tv) implies b@ != spec_encode_task(
                    tv,
                ) by {
                    lemma_task_layout(tv);
                }
            }
            return None;
        },
    };
    let description = match read_text_block(b, title.1) {
        Option::Some(p) => p,
        Option::None => {
            proof {
                assert forall|tv: TaskView| task_encodable(tv) implies b@ != spec_encode_task(
                    tv,
                ) by {
                    lemma_task_layout(tv);
                    if b@ == spec_encode_task(tv) {
                        lemma_block_unique(b@, 27, title.0@, tv.title);
                    }
                }
            }
            return None;
        },
    };
    let assigned = match read_text_block(b, description.1) {
        Option::Some(p) => p,
        Option::None => {
            proof {
                assert forall|tv: TaskView| task_encodable(tv) implies b@ != spec_encode_task(
                    tv,
                ) by {
                    lemma_task_layout(tv);
                    if b@ == spec_encode_task(tv) {
                        lemma_block_unique(b@, 27, title.0@, tv.title);
                        lemma_block_unique(
                            b@,
                            27 + 2 + encode_utf8(tv.title).len() as int,
                            description.0@,
                            tv.description,
                        );
                    }
                }
            }
            return None;
        },
    };
    if assigned.1 != n {
        proof {
            assert forall|tv: TaskView| task_encodable(tv) implies b@ != spec_encode_task(tv) by {
                lemma_task_layout(tv);
                if b@ == spec_encode_task(tv) {
                    lemma_block_unique(b@, 27, title.0@, tv.title);
                    lemma_block_unique(
                        b@,
                        27 + 2 + encode_utf8(tv.title).len() as int,
                        description.0@,
                        tv.description,
                    );
                    lemma_block_unique(
                        b@,
                        27 + 2 + encode_utf8(tv.title).len() + 2 + encode_utf8(
                            tv.description,
                        ).len() as int,
                        assigned.0@,
                        tv.assigned_to,
                    );
                }
            }
        }
        return None;
    }
    let task = Task {
        id,
        title: title.0,
        description: description.0,
        assigned_to: assigned.0,
        is_done: done_byte == 1,
        start_time,
        deadline,
        updated_at: if tag == 1 {
            Some(upd_val)
        } else {
            None
        },
    };
    proof {
        let e = spec_encode_task(task@);
        assert(b@.subrange(0, 8) == spec_u64_to_le_bytes(id));
        assert(b@.subrange(9, 17) == spec_u64_to_le_bytes(start_time));
        assert(b@.subrange(19, 27) == spec_u64_to_le_bytes(
            match task@.updated_at {
                Option::Some(u) => u,
                Option::None => 0u64,
            },
        ));
        assert(seq![byte_of_bool(task@.is_done)] =~= b@.subrange(8, 9));
        assert(seq![task@.deadline] =~= b@.subrange(17, 18));
        assert(opt_time_bytes(task@.updated_at) =~= b@.subrange(18, 27));
        assert(b@ =~= b@.subrange(0, 8) + b@.subrange(8, 9) + b@.subrange(9, 17) + b@.subrange(
            17,
            18,
        ) + b@.subrange(18, 27) + b@.subrange(27, title.1 as int) + b@.subrange(
            title.1 as int,
            description.1 as int,
        ) + b@.subrange(description.1 as int, n as int));
        assert(b@ == e);
    }
    Some(task)
}

/// Deserializes a member: succeeds exactly on the canonical serialized form
/// of an encodable member, and then returns that member.
pub fn decode_member(b: &Vec<u8>) -> (r: Option<Member>)
    ensures
        match r {
            Some(m) => member_encodable(m@) && b@ == spec_encode_member(m@),
            None => forall|mv: MemberView|
                member_encodable(mv) ==> b@ != #[trigger] spec_encode_member(mv),
        },
{
    proof {
        lemma_auto_spec_u64_to_from_le_bytes();
    }
    let n = b.len();
    if n < 10 {
        proof {
            assert forall|mv: MemberView| member_encodable(mv) implies b@ != spec_encode_member(
                mv,
            ) by {
                lemma_member_layout(mv);
            }
        }
        return None;
    }
    let id = u64_from_le_bytes(slice_subrange(b.as_slice(), 0, 8));
    let principal = match read_text_block(b, 8) {
        Option::Some(p) => p,
        Option::None => {
            proof {
                assert forall|mv: MemberView| member_encodable(mv) implies b@
                    != spec_encode_member(mv) by {
                    lemma_member_layout(mv);
                }
            }
            return None;
        },
    };
    if principal.1 != n {
        proof {
            assert forall|mv: MemberView| member_encodable(mv) implies b@ != spec_encode_member(
                mv,
            ) by {
                lemma_member_layout(mv);
                if b@ == spec_encode_member(mv) {
                    lemma_block_unique(b@, 8, principal.0@, mv.principal_id);
                }
            }
        }
        return None;
    }
    let member = Member { id, principal_id: principal.0 };
    proof {
        assert(b@.subrange(0, 8) == spec_u64_to_le_bytes(id));
        assert(b@ =~= b@.subrange(0, 8) + b@.subrange(8, n as int));
        assert(b@ == spec_encode_member(member@));
    }
    Some(member)
}

} // verus!
