//! The domain-name codec: decoding label sequences with compression
//! pointers and cycle detection, and encoding them with back references
//! into previously written names.
//!
//! A name on the wire is a run of tokens. A token whose two top bits are
//! set starts a 14-bit pointer into the same buffer; a zero token ends the
//! name; any other token is the length of a literal label that follows it.
//! A pointer ends the name's consumption of the outer stream: the cursor
//! advances past its two bytes and decoding carries on at the target.

use vstd::prelude::*;
use vstd::set_lib::{lemma_int_range, lemma_len_subset, set_int_range};
use vstd::utf8::{
    codepoint_width_1,
    codepoint_width_2,
    codepoint_width_3,
    codepoint_width_4,
    is_continuation_byte,
    not_overlong_encoding,
    not_surrogate,
    pop_first_scalar,
    valid_first_scalar,
    valid_leading_and_continuation_bytes_first_codepoint,
    valid_utf8,
};
use crate::errors::{
    detail_msg,
    msg_bad_label,
    msg_cyclic,
    msg_oob,
    DnsMsgError,
    ErrV,
    Error,
};

verus! {

/// The labels of one decoded name together with the position just past the
/// name's encoding in the outer stream.
pub struct NameOk {
    pub labels: Seq<Seq<u8>>,
    pub end: int,
}

/// The outcome of decoding one name.
pub enum NameOut {
    Done(NameOk),
    Fail(ErrV),
}

/// The offsets already visited while resolving one name's pointer chain:
/// finitely many, all inside the buffer.
pub open spec fn wf_visited(data: Seq<u8>, visited: Set<int>) -> bool {
    &&& visited.finite()
    &&& forall|v: int| visited.contains(v) ==> 0 <= v && v < data.len()
}

/// Decode the name starting at `pos`, with `visited` holding the pointer
/// targets already taken for this name. This is the mathematical meaning
/// of a wire-format name; the executable decoder is proved to match it.
pub open spec fn spec_decode_name(data: Seq<u8>, pos: int, visited: Set<int>) -> NameOut
    recommends
        0 <= pos,
    decreases data.len() - visited.len(), data.len() - pos,
    when 0 <= pos && wf_visited(data, visited)
    via spec_decode_name_decreases
{
    if pos >= data.len() {
        NameOut::Fail(ErrV { kind: DnsMsgError::OutOfBounds, msg: msg_oob(pos) })
    } else {
        let b = data[pos];
        if b >= 0xc0 {
            if pos + 2 > data.len() {
                NameOut::Fail(ErrV { kind: DnsMsgError::OutOfBounds, msg: msg_oob(pos) })
            } else {
                let jump = (b - 0xc0) * 256 + data[pos + 1];
                if visited.contains(jump) {
                    NameOut::Fail(
                        ErrV { kind: DnsMsgError::CyclicLabelRef, msg: msg_cyclic(pos + 2) },
                    )
                } else if jump >= data.len() {
                    NameOut::Fail(ErrV { kind: DnsMsgError::OutOfBounds, msg: msg_oob(jump) })
                } else {
                    match spec_decode_name(data, jump, visited.insert(jump)) {
                        NameOut::Done(nk) => NameOut::Done(
                            NameOk { labels: nk.labels, end: pos + 2 },
                        ),
                        NameOut::Fail(e) => NameOut::Fail(e),
                    }
                }
            }
        } else if b == 0 {
            NameOut::Done(NameOk { labels: Seq::empty(), end: pos + 1 })
        } else {
            if pos + 1 + b > data.len() {
                NameOut::Fail(ErrV { kind: DnsMsgError::OutOfBounds, msg: msg_oob(pos + 1) })
            } else {
                let lab = data.subrange(pos + 1, pos + 1 + b);
                if !valid_utf8(lab) {
                    NameOut::Fail(
                        ErrV { kind: DnsMsgError::InvalidData, msg: msg_bad_label(pos + 1) },
                    )
                } else {
                    match spec_decode_name(data, pos + 1 + b, visited) {
                        NameOut::Done(nk) => NameOut::Done(
                            NameOk { labels: seq![lab] + nk.labels, end: nk.end },
                        ),
                        NameOut::Fail(e) => NameOut::Fail(e),
                    }
                }
            }
        }
    }
}

#[via_fn]
proof fn spec_decode_name_decreases(data: Seq<u8>, pos: int, visited: Set<int>) {
    if 0 <= pos && wf_visited(data, visited) && pos < data.len() {
        lemma_visited_card(data, visited);
        let b = data[pos];
        if b >= 0xc0 && pos + 2 <= data.len() {
            let jump = (b - 0xc0) * 256 + data[pos + 1];
            if !visited.contains(jump) && jump < data.len() {
                lemma_visited_card(data, visited.insert(jump));
            }
        }
    }
}

/// Finitely many in-bounds offsets are at most as many as there are bytes.
proof fn lemma_visited_card(data: Seq<u8>, visited: Set<int>)
    requires
        wf_visited(data, visited),
    ensures
        visited.len() <= data.len(),
{
    lemma_int_range(0, data.len() as int);
    lemma_len_subset(visited, set_int_range(0, data.len() as int));
}

/// A name that decodes starts inside the buffer, and the cursor it leaves
/// behind lies past its first byte and within the buffer.
pub proof fn lemma_decode_end_bounds(data: Seq<u8>, pos: int, visited: Set<int>)
    requires
        0 <= pos,
        wf_visited(data, visited),
    ensures
        match spec_decode_name(data, pos, visited) {
            NameOut::Done(nk) => pos < data.len() && pos + 1 <= nk.end <= data.len(),
            NameOut::Fail(_) => true,
        },
    decreases data.len() - visited.len(), data.len() - pos,
{
    lemma_visited_card(data, visited);
    if pos < data.len() {
        let b = data[pos];
        if b >= 0xc0 {
            if pos + 2 <= data.len() {
                let jump = (b - 0xc0) * 256 + data[pos + 1];
                if !visited.contains(jump) && jump < data.len() {
                    lemma_visited_card(data, visited.insert(jump));
                    lemma_decode_end_bounds(data, jump, visited.insert(jump));
                }
            }
        } else if b != 0 {
            if pos + 1 + b <= data.len() {
                lemma_decode_end_bounds(data, pos + 1 + b, visited);
            }
        }
    }
}

/// True when every element of the vector is smaller than `bound`.
pub open spec fn all_below(s: Seq<usize>, bound: int) -> bool {
    forall|i: int| 0 <= i < s.len() ==> (#[trigger] s[i]) < bound
}

/// The set of offsets a vector of visited positions stands for.
pub open spec fn visited_set(s: Seq<usize>) -> Set<int> {
    s.map_values(|v: usize| v as int).to_set()
}

proof fn lemma_visited_set_contains(s: Seq<usize>, x: usize)
    ensures
        visited_set(s).contains(x as int) <==> s.contains(x),
{
    let m = s.map_values(|v: usize| v as int);
    if s.contains(x) {
        let i = choose|i: int| 0 <= i < s.len() && s[i] == x;
        assert(m[i] == x as int);
        assert(m.contains(x as int));
    }
    if m.contains(x as int) {
        let i = choose|i: int| 0 <= i < m.len() && m[i] == x as int;
        assert(s[i] == x);
        assert(s.contains(x));
    }
}

proof fn lemma_visited_set_push(s: Seq<usize>, x: usize)
    ensures
        visited_set(s.push(x)) =~= visited_set(s).insert(x as int),
        visited_set(s).finite(),
{
    let m = s.map_values(|v: usize| v as int);
    let mp = s.push(x).map_values(|v: usize| v as int);
    assert(mp =~= m.push(x as int));
    assert forall|y: int| visited_set(s.push(x)).contains(y) implies visited_set(s).insert(
        x as int,
    ).contains(y) by {
        let i = choose|i: int| 0 <= i < mp.len() && mp[i] == y;
        if i < m.len() {
            assert(m.contains(y));
        }
    }
    assert forall|y: int| visited_set(s).insert(x as int).contains(y) implies visited_set(
        s.push(x),
    ).contains(y) by {
        if y == x as int {
            assert(mp[mp.len() - 1] == y);
        } else {
            let i = choose|i: int| 0 <= i < m.len() && m[i] == y;
            assert(mp[i] == y);
        }
    }
}

/// Whether `x` is among the visited offsets.
fn visited_contains(v: &Vec<usize>, x: usize) -> (r: bool)
    ensures
        r == v@.contains(x),
{
    let mut i: usize = 0;
    while i < v.len()
        invariant
            0 <= i <= v@.len(),
            forall|j: int| 0 <= j < i ==> v@[j] != x,
        decreases v@.len() - i,
    {
        if v[i] == x {
            return true;
        }
        i = i + 1;
    }
    false
}

/// Whether the bytes are a well-formed UTF-8 encoding, scalar by scalar:
/// each leading byte must announce a width its continuation bytes honour,
/// overlong encodings and surrogate codepoints are rejected.
fn utf8_check(bytes: &[u8]) -> (r: bool)
    ensures
        r == valid_utf8(bytes@),
{
    let n = bytes.len();
    let mut i: usize = 0;
    proof {
        assert(bytes@.skip(0) =~= bytes@);
    }
    loop
        invariant
            i <= n,
            n == bytes@.len(),
            valid_utf8(bytes@) == valid_utf8(bytes@.skip(i as int)),
        decreases n - i,
    {
        let ghost suf = bytes@.skip(i as int);
        if i == n {
            proof {
                assert(suf.len() == 0);
            }
            return true;
        }
        proof {
            assert(suf[0] == bytes@[i as int]);
            assert(forall|j: int| 0 <= j < suf.len() ==> #[trigger] suf[j] == bytes@[i + j]);
        }
        let b0 = bytes[i];
        if b0 <= 0x7f {
            proof {
                assert(not_surrogate(codepoint_width_1(b0)) && not_overlong_encoding(
                    codepoint_width_1(b0),
                    1,
                )) by (bit_vector)
                    requires
                        b0 <= 0x7f,
                ;
                assert(valid_first_scalar(suf));
                assert(pop_first_scalar(suf) =~= bytes@.skip(i as int + 1));
            }
            i = i + 1;
        } else if b0 < 0xc2 {
            // A stray continuation byte, or a two-byte form that could
            // only encode a codepoint below 0x80.
            proof {
                if 0xc0 <= b0 && suf.len() >= 2 && is_continuation_byte(suf[1]) {
                    let b1 = bytes@[i as int + 1];
                    assert(codepoint_width_2(b0, b1) < 0x80) by (bit_vector)
                        requires
                            0xc0 <= b0 < 0xc2,
                            0x80 <= b1 <= 0xbf,
                    ;
                    assert(!valid_first_scalar(suf));
                } else {
                    assert(!valid_leading_and_continuation_bytes_first_codepoint(suf));
                }
            }
            return false;
        } else if b0 <= 0xdf {
            if n - i < 2 {
                proof {
                    assert(!valid_leading_and_continuation_bytes_first_codepoint(suf));
                }
                return false;
            }
            let b1 = bytes[i + 1];
            if !(0x80 <= b1 && b1 <= 0xbf) {
                proof {
                    assert(!valid_leading_and_continuation_bytes_first_codepoint(suf));
                }
                return false;
            }
            proof {
                assert(codepoint_width_2(b0, b1) >= 0x80 && codepoint_width_2(b0, b1) <= 0x7ff)
                    by (bit_vector)
                    requires
                        0xc2 <= b0 <= 0xdf,
                        0x80 <= b1 <= 0xbf,
                ;
                assert(valid_first_scalar(suf));
                assert(pop_first_scalar(suf) =~= bytes@.skip(i as int + 2));
            }
            i = i + 2;
        } else if b0 <= 0xef {
            if n - i < 3 {
                proof {
                    assert(!valid_leading_and_continuation_bytes_first_codepoint(suf));
                }
                return false;
            }
            let b1 = bytes[i + 1];
            let b2 = bytes[i + 2];
            if !(0x80 <= b1 && b1 <= 0xbf) || !(0x80 <= b2 && b2 <= 0xbf) {
                proof {
                    assert(!valid_leading_and_continuation_bytes_first_codepoint(suf));
                }
                return false;
            }
            if b0 == 0xe0 && b1 < 0xa0 {
                // An overlong three-byte form.
                proof {
                    assert(codepoint_width_3(b0, b1, b2) < 0x800) by (bit_vector)
                        requires
                            b0 == 0xe0,
                            0x80 <= b1 < 0xa0,
                            0x80 <= b2 <= 0xbf,
                    ;
                    assert(!valid_first_scalar(suf));
                }
                return false;
            }
            if b0 == 0xed && b1 >= 0xa0 {
                // A surrogate codepoint.
                proof {
                    assert(0xd800 <= codepoint_width_3(b0, b1, b2) <= 0xdfff) by (bit_vector)
                        requires
                            b0 == 0xed,
                            0xa0 <= b1 <= 0xbf,
                            0x80 <= b2 <= 0xbf,
                    ;
                    assert(!valid_first_scalar(suf));
                }
                return false;
            }
            proof {
                assert(codepoint_width_3(b0, b1, b2) >= 0x800 && !(0xd800 <= codepoint_width_3(
                    b0,
                    b1,
                    b2,
                ) <= 0xdfff)) by (bit_vector)
                    requires
                        0xe0 <= b0 <= 0xef,
                        0x80 <= b1 <= 0xbf,
                        0x80 <= b2 <= 0xbf,
                        !(b0 == 0xe0 && b1 < 0xa0),
                        !(b0 == 0xed && b1 >= 0xa0),
                ;
                assert(codepoint_width_3(b0, b1, b2) <= 0xffff) by (bit_vector)
                    requires
                        0xe0 <= b0 <= 0xef,
                        0x80 <= b1 <= 0xbf,
                        0x80 <= b2 <= 0xbf,
                ;
                assert(valid_first_scalar(suf));
                assert(pop_first_scalar(suf) =~= bytes@.skip(i as int + 3));
            }
            i = i + 3;
        } else if b0 <= 0xf4 {
            if n - i < 4 {
                proof {
                    assert(!valid_leading_and_continuation_bytes_first_codepoint(suf));
                }
                return false;
            }
            let b1 = bytes[i + 1];
            let b2 = bytes[i + 2];
            let b3 = bytes[i + 3];
            if !(0x80 <= b1 && b1 <= 0xbf) || !(0x80 <= b2 && b2 <= 0xbf) || !(0x80 <= b3 && b3
                <= 0xbf) {
                proof {
                    assert(!valid_leading_and_continuation_bytes_first_codepoint(suf));
                }
                return false;
            }
            if b0 == 0xf0 && b1 < 0x90 {
                // An overlong four-byte form.
                proof {
                    assert(codepoint_width_4(b0, b1, b2, b3) < 0x10000) by (bit_vector)
                        requires
                            b0 == 0xf0,
                            0x80 <= b1 < 0x90,
                            0x80 <= b2 <= 0xbf,
                            0x80 <= b3 <= 0xbf,
                    ;
                    assert(!valid_first_scalar(suf));
                }
                return false;
            }
            if b0 == 0xf4 && b1 >= 0x90 {
                // Beyond the last codepoint.
                proof {
                    assert(codepoint_width_4(b0, b1, b2, b3) > 0x10ffff) by (bit_vector)
                        requires
                            b0 == 0xf4,
                            0x90 <= b1 <= 0xbf,
                            0x80 <= b2 <= 0xbf,
                            0x80 <= b3 <= 0xbf,
                    ;
                    assert(!valid_first_scalar(suf));
                }
                return false;
            }
            proof {
                assert(0x10000 <= codepoint_width_4(b0, b1, b2, b3) <= 0x10ffff) by (bit_vector)
                    requires
                        0xf0 <= b0 <= 0xf4,
                        0x80 <= b1 <= 0xbf,
                        0x80 <= b2 <= 0xbf,
                        0x80 <= b3 <= 0xbf,
                        !(b0 == 0xf0 && b1 < 0x90),
                        !(b0 == 0xf4 && b1 >= 0x90),
                ;
                assert(valid_first_scalar(suf));
                assert(pop_first_scalar(suf) =~= bytes@.skip(i as int + 4));
            }
            i = i + 4;
        } else {
            // 0xf5 to 0xf7 can only encode codepoints beyond the last
            // one; 0xf8 and above lead nothing.
            proof {
                if b0 <= 0xf7 && suf.len() >= 4 && is_continuation_byte(suf[1])
                    && is_continuation_byte(suf[2]) && is_continuation_byte(suf[3]) {
                    let b1 = bytes@[i as int + 1];
                    let b2 = bytes@[i as int + 2];
                    let b3 = bytes@[i as int + 3];
                    assert(codepoint_width_4(b0, b1, b2, b3) > 0x10ffff) by (bit_vector)
                        requires
                            0xf5 <= b0 <= 0xf7,
                            0x80 <= b1 <= 0xbf,
                            0x80 <= b2 <= 0xbf,
                            0x80 <= b3 <= 0xbf,
                    ;
                    assert(!valid_first_scalar(suf));
                } else {
                    assert(!valid_leading_and_continuation_bytes_first_codepoint(suf));
                }
            }
            return false;
        }
    }
}

/// An error for a read past the end of the buffer, at the given index.
pub(crate) fn oob_error(i: usize) -> (e: Error)
    ensures
        e@ == (ErrV { kind: DnsMsgError::OutOfBounds, msg: msg_oob(i as int) }),
{
    let m = detail_msg("Out of bounds read at index ", i as u64, "");
    proof {
        reveal_strlit("");
        assert(m@ =~= msg_oob(i as int));
    }
    Error::new(DnsMsgError::OutOfBounds, m)
}

/// An error for a pointer chain that revisited an offset, reported at the
/// position just past the pointer that closed the cycle.
fn cyclic_error(i: usize) -> (e: Error)
    ensures
        e@ == (ErrV { kind: DnsMsgError::CyclicLabelRef, msg: msg_cyclic(i as int) }),
{
    let m = detail_msg("Encountered cyclic label reference at index ", i as u64, "");
    proof {
        reveal_strlit("");
        assert(m@ =~= msg_cyclic(i as int));
    }
    Error::new(DnsMsgError::CyclicLabelRef, m)
}

/// An error for a label whose bytes are not well-formed text.
fn bad_label_error(i: usize) -> (e: Error)
    ensures
        e@ == (ErrV { kind: DnsMsgError::InvalidData, msg: msg_bad_label(i as int) }),
{
    let m = detail_msg("Invalid label text at index ", i as u64, "");
    proof {
        reveal_strlit("");
        assert(m@ =~= msg_bad_label(i as int));
    }
    Error::new(DnsMsgError::InvalidData, m)
}

/// Decode the name at `*pos`, leaving the cursor just past the name's
/// encoding in the outer stream. Labels are returned as raw byte strings,
/// expanded through any compression pointers; a pointer chain that
/// revisits an offset, a read past the end of the buffer, or a label that
/// is not well-formed text fails with the matching error.
pub fn parse_labels(data: &[u8], pos: &mut usize) -> (r: Result<Vec<Vec<u8>>, Error>)
    ensures
        match spec_decode_name(data@, *old(pos) as int, Set::empty()) {
            NameOut::Done(nk) => {
                &&& r is Ok
                &&& r->Ok_0.deep_view() == nk.labels
                &&& *final(pos) == nk.end
            },
            NameOut::Fail(e) => r is Err && r->Err_0@ == e,
        },
{
    let ghost pos0 = *pos as int;
    let ghost whole = spec_decode_name(data@, *pos as int, Set::empty());
    let n: usize = data.len();
    let mut cur: usize = *pos;
    let mut jumped: bool = false;
    let mut outer_end: usize = 0;
    let mut acc: Vec<Vec<u8>> = Vec::new();
    let mut visited: Vec<usize> = Vec::new();

    proof {
        assert(visited_set(visited@) =~= Set::<int>::empty());
        assert(acc.deep_view() =~= Seq::<Seq<u8>>::empty());
        if spec_decode_name(data@, pos0, Set::empty()) is Done {
            assert(acc.deep_view() + spec_decode_name(data@, pos0, Set::empty())->Done_0.labels
                =~= spec_decode_name(data@, pos0, Set::empty())->Done_0.labels);
        }
    }

    loop
        invariant
            n == data@.len(),
            pos0 == *old(pos) as int,
            whole == spec_decode_name(data@, pos0, Set::empty()),
            all_below(visited@, n as int),
            visited@.no_duplicates(),
            wf_visited(data@, visited_set(visited@)),
            visited_set(visited@).len() == visited@.len(),
            visited@.len() <= n,
            ({
                let here = spec_decode_name(data@, cur as int, visited_set(visited@));
                &&& (here is Done ==> {
                    &&& whole is Done
                    &&& whole->Done_0.labels == acc.deep_view() + here->Done_0.labels
                    &&& whole->Done_0.end == if jumped { outer_end as int } else { here->Done_0.end }
                })
                &&& (here is Fail ==> whole == here)
            }),
        decreases n - visited@.len(), n - cur,
    {
        let ghost vset = visited_set(visited@);
        let ghost here = spec_decode_name(data@, cur as int, vset);
        if cur >= n {
            proof {
                assert(here == NameOut::Fail(
                    ErrV { kind: DnsMsgError::OutOfBounds, msg: msg_oob(cur as int) },
                ));
            }
            return Err(oob_error(cur));
        }
        let b = data[cur];
        if b >= 0xc0 {
            if n - cur < 2 {
                proof {
                    assert(here == NameOut::Fail(
                        ErrV { kind: DnsMsgError::OutOfBounds, msg: msg_oob(cur as int) },
                    ));
                }
                return Err(oob_error(cur));
            }
            let jump: usize = ((b - 0xc0) as usize) * 256 + (data[cur + 1] as usize);
            proof {
                lemma_visited_set_contains(visited@, jump);
            }
            if visited_contains(&visited, jump) {
                proof {
                    assert(here == NameOut::Fail(
                        ErrV {
                            kind: DnsMsgError::CyclicLabelRef,
                            msg: msg_cyclic(cur as int + 2),
                        },
                    ));
                }
                return Err(cyclic_error(cur + 2));
            }
            if jump >= n {
                proof {
                    assert(here == NameOut::Fail(
                        ErrV { kind: DnsMsgError::OutOfBounds, msg: msg_oob(jump as int) },
                    ));
                }
                return Err(oob_error(jump));
            }
            proof {
                lemma_visited_set_push(visited@, jump);
                lemma_visited_card(data@, visited_set(visited@.push(jump)));
                visited@.push(jump).unique_seq_to_set();
                let inner = spec_decode_name(data@, jump as int, vset.insert(jump as int));
                assert(here is Done ==> inner is Done && here->Done_0.labels
                    == inner->Done_0.labels && here->Done_0.end == cur + 2);
                assert(here is Fail ==> inner is Fail && here == inner);
            }
            visited.push(jump);
            if !jumped {
                jumped = true;
                outer_end = cur + 2;
            }
            cur = jump;
        } else if b == 0 {
            proof {
                assert(here == NameOut::Done(
                    NameOk { labels: Seq::empty(), end: cur as int + 1 },
                ));
                assert(acc.deep_view() + Seq::<Seq<u8>>::empty() =~= acc.deep_view());
            }
            let end = cur + 1;
            *pos = if jumped {
                outer_end
            } else {
                end
            };
            return Ok(acc);
        } else {
            let len: usize = b as usize;
            if len > n - (cur + 1) {
                proof {
                    assert(here == NameOut::Fail(
                        ErrV { kind: DnsMsgError::OutOfBounds, msg: msg_oob(cur as int + 1) },
                    ));
                }
                return Err(oob_error(cur + 1));
            }
            let lab: Vec<u8> = vstd::slice::slice_to_vec(
                vstd::slice::slice_subrange(data, cur + 1, cur + 1 + len),
            );
            proof {
                assert(lab.deep_view() =~= lab@);
                assert(lab@ == data@.subrange(cur as int + 1, cur as int + 1 + len as int));
            }
            if !utf8_check(lab.as_slice()) {
                proof {
                    assert(here == NameOut::Fail(
                        ErrV {
                            kind: DnsMsgError::InvalidData,
                            msg: msg_bad_label(cur as int + 1),
                        },
                    ));
                }
                return Err(bad_label_error(cur + 1));
            }
            let ghost old_acc = acc.deep_view();
            let ghost labv = lab@;
            acc.push(lab);
            proof {
                assert(acc.deep_view() =~= old_acc.push(labv));
                let inner = spec_decode_name(data@, cur as int + 1 + len as int, vset);
                assert(here is Done ==> inner is Done && here->Done_0.labels
                    == seq![labv] + inner->Done_0.labels && here->Done_0.end
                    == inner->Done_0.end);
                assert(here is Fail ==> inner is Fail && here == inner);
                if inner is Done {
                    assert(old_acc.push(labv) + inner->Done_0.labels =~= old_acc + (seq![labv]
                        + inner->Done_0.labels));
                }
            }
            cur = cur + 1 + len;
        }
    }
}

// ---------------------------------------------------------------------------
// Encoding
// ---------------------------------------------------------------------------

/// True when every label has a wire-legal length: one to sixty-three bytes.
pub open spec fn labels_wf(labels: Seq<Seq<u8>>) -> bool {
    forall|i: int| 0 <= i < labels.len() ==> 1 <= (#[trigger] labels[i]).len() <= 63
}

/// The number of bytes a name takes when written without compression:
/// a length byte and the bytes of each label, then the terminating zero.
pub open spec fn spec_name_plain_len(labels: Seq<Seq<u8>>) -> int
    decreases labels.len(),
{
    if labels.len() == 0 {
        1
    } else {
        1 + labels[0].len() + spec_name_plain_len(labels.drop_first())
    }
}

/// A name takes at least its terminating byte.
pub proof fn lemma_plain_len_pos(labels: Seq<Seq<u8>>)
    ensures
        spec_name_plain_len(labels) >= 1,
    decreases labels.len(),
{
    if labels.len() > 0 {
        lemma_plain_len_pos(labels.drop_first());
    }
}

/// The label table of one encode pass: each recorded name suffix with the
/// offset at which its encoding starts.
pub type TableV = Seq<(Seq<Seq<u8>>, int)>;

/// Encoding a name appends at least one byte and at most the name's
/// uncompressed length, never touches what was already written, and only
/// adds entries to the table.
pub proof fn lemma_encode_name_grows(buf: Seq<u8>, table: TableV, labels: Seq<Seq<u8>>)
    ensures
        ({
            let (b2, t2) = spec_encode_name(buf, table, labels);
            &&& buf.len() + 1 <= b2.len() <= buf.len() + spec_name_plain_len(labels)
            &&& b2.subrange(0, buf.len() as int) =~= buf
            &&& t2.len() >= table.len()
            &&& forall|i: int| 0 <= i < table.len() ==> t2[i] == table[i]
        }),
    decreases labels.len(),
{
    if labels.len() == 0 {
        assert(buf.push(0).subrange(0, buf.len() as int) =~= buf);
    } else {
        match spec_lookup(table, labels) {
            Some(p) => {
                let b2 = buf.push((0xc0 + p / 256) as u8).push((p % 256) as u8);
                lemma_plain_len_pos(labels.drop_first());
                assert(b2.subrange(0, buf.len() as int) =~= buf);
            },
            None => {
                let mid = buf.push(labels[0].len() as u8) + labels[0];
                let t2 = table.push((labels, buf.len() as int));
                lemma_encode_name_grows(mid, t2, labels.drop_first());
                let (b3, t3) = spec_encode_name(mid, t2, labels.drop_first());
                assert(b3.subrange(0, buf.len() as int) =~= buf) by {
                    assert(mid.subrange(0, buf.len() as int) =~= buf);
                    assert(b3.subrange(0, mid.len() as int).subrange(0, buf.len() as int)
                        =~= b3.subrange(0, buf.len() as int));
                }
            },
        }
    }
}

/// The offset recorded for `key`, searching oldest entries first.
pub open spec fn spec_lookup(t: TableV, key: Seq<Seq<u8>>) -> Option<int>
    decreases t.len(),
{
    if t.len() == 0 {
        None
    } else if t[0].0 == key {
        Some(t[0].1)
    } else {
        spec_lookup(t.drop_first(), key)
    }
}

/// True when every recorded offset fits in a 14-bit pointer.
pub open spec fn table_wf(t: TableV) -> bool {
    forall|i: int| 0 <= i < t.len() ==> 0 <= (#[trigger] t[i]).1 <= 0x3fff
}

/// A successful lookup returns the offset of some entry that records the
/// key.
pub proof fn lemma_lookup_in_table(t: TableV, key: Seq<Seq<u8>>)
    ensures
        match spec_lookup(t, key) {
            Some(p) => exists|i: int|
                0 <= i < t.len() && (#[trigger] t[i]).0 == key && t[i].1 == p,
            None => true,
        },
    decreases t.len(),
{
    if t.len() > 0 && t[0].0 != key {
        lemma_lookup_in_table(t.drop_first(), key);
        if spec_lookup(t.drop_first(), key) is Some {
            let i = choose|i: int|
                0 <= i < t.drop_first().len() && (#[trigger] t.drop_first()[i]).0 == key
                    && t.drop_first()[i].1 == spec_lookup(t.drop_first(), key)->0;
            assert(t[i + 1].0 == key && t[i + 1].1 == spec_lookup(t, key)->0);
        }
    }
}

/// Write a name at the end of `buf`, recording each fresh suffix in the
/// table, and stopping with a two-byte pointer as soon as the remaining
/// suffix has been written before. The result is the grown buffer and
/// table. This is the mathematical meaning of name encoding; the
/// executable encoder is proved to match it.
pub open spec fn spec_encode_name(buf: Seq<u8>, table: TableV, labels: Seq<Seq<u8>>) -> (
    Seq<u8>,
    TableV,
)
    decreases labels.len(),
{
    if labels.len() == 0 {
        (buf.push(0), table)
    } else {
        match spec_lookup(table, labels) {
            Some(p) => (buf.push((0xc0 + p / 256) as u8).push((p % 256) as u8), table),
            None => spec_encode_name(
                buf.push(labels[0].len() as u8) + labels[0],
                table.push((labels, buf.len() as int)),
                labels.drop_first(),
            ),
        }
    }
}

/// The label table of one encode pass: maps each name suffix already
/// written to the buffer offset where its encoding starts. Created empty,
/// shared across the names of one message, and discarded afterwards.
pub struct LabelTable {
    entries: Vec<(Vec<Vec<u8>>, usize)>,
}

impl View for LabelTable {
    type V = TableV;

    closed spec fn view(&self) -> TableV {
        self.entries@.map_values(|e: (Vec<Vec<u8>>, usize)| (e.0.deep_view(), e.1 as int))
    }
}

/// Whether two byte strings hold the same bytes.
fn bytes_eq(a: &Vec<u8>, b: &Vec<u8>) -> (r: bool)
    ensures
        r == (a@ == b@),
{
    if a.len() != b.len() {
        proof {
            assert(a@ != b@);
        }
        return false;
    }
    let mut i: usize = 0;
    while i < a.len()
        invariant
            0 <= i <= a@.len(),
            a@.len() == b@.len(),
            forall|j: int| 0 <= j < i ==> a@[j] == b@[j],
        decreases a@.len() - i,
    {
        if a[i] != b[i] {
            return false;
        }
        i = i + 1;
    }
    proof {
        assert(a@ =~= b@);
    }
    true
}

/// Whether two names hold the same labels.
fn labels_eq(a: &Vec<Vec<u8>>, b: &Vec<Vec<u8>>) -> (r: bool)
    ensures
        r == (a.deep_view() == b.deep_view()),
{
    if a.len() != b.len() {
        proof {
            assert(a.deep_view().len() != b.deep_view().len());
        }
        return false;
    }
    let mut i: usize = 0;
    while i < a.len()
        invariant
            0 <= i <= a@.len(),
            a@.len() == b@.len(),
            forall|j: int| 0 <= j < i ==> a.deep_view()[j] == b.deep_view()[j],
        decreases a@.len() - i,
    {
        if !bytes_eq(&a[i], &b[i]) {
            proof {
                assert(a.deep_view()[i as int] =~= a@[i as int]@);
                assert(b.deep_view()[i as int] =~= b@[i as int]@);
            }
            return false;
        }
        proof {
            assert(a.deep_view()[i as int] =~= a@[i as int]@);
            assert(b.deep_view()[i as int] =~= b@[i as int]@);
        }
        i = i + 1;
    }
    proof {
        assert(a.deep_view() =~~= b.deep_view());
    }
    true
}

/// A fresh copy of a byte string.
fn copy_bytes(v: &Vec<u8>) -> (r: Vec<u8>)
    ensures
        r@ == v@,
{
    let mut r: Vec<u8> = Vec::new();
    let mut i: usize = 0;
    while i < v.len()
        invariant
            0 <= i <= v@.len(),
            r@ == v@.subrange(0, i as int),
        decreases v@.len() - i,
    {
        r.push(v[i]);
        proof {
            assert(r@ =~= v@.subrange(0, i as int + 1));
        }
        i = i + 1;
    }
    proof {
        assert(v@.subrange(0, v@.len() as int) =~= v@);
    }
    r
}

/// A fresh copy of the name suffix starting at label `k`.
fn copy_suffix(labels: &Vec<Vec<u8>>, k: usize) -> (r: Vec<Vec<u8>>)
    requires
        k <= labels@.len(),
    ensures
        r.deep_view() == labels.deep_view().skip(k as int),
{
    let mut r: Vec<Vec<u8>> = Vec::new();
    let mut i: usize = k;
    while i < labels.len()
        invariant
            k <= i <= labels@.len(),
            r.deep_view() =~= labels.deep_view().subrange(k as int, i as int),
        decreases labels@.len() - i,
    {
        let nb = copy_bytes(&labels[i]);
        proof {
            assert(nb.deep_view() =~= nb@);
            assert(labels.deep_view()[i as int] =~= labels@[i as int]@);
        }
        let ghost rv0 = r.deep_view();
        r.push(nb);
        proof {
            assert(r.deep_view() =~= rv0.push(nb.deep_view()));
            assert(nb.deep_view() == labels.deep_view()[i as int]);
            assert(labels.deep_view().subrange(k as int, i as int).push(
                labels.deep_view()[i as int],
            ) =~= labels.deep_view().subrange(k as int, i as int + 1));
        }
        i = i + 1;
    }
    proof {
        assert(labels.deep_view().subrange(k as int, labels.deep_view().len() as int)
            =~= labels.deep_view().skip(k as int));
    }
    r
}

impl LabelTable {
    /// An empty table.
    pub fn new() -> (t: LabelTable)
        ensures
            t@ == Seq::<(Seq<Seq<u8>>, int)>::empty(),
    {
        let t = LabelTable { entries: Vec::new() };
        proof {
            assert(t@ =~= Seq::<(Seq<Seq<u8>>, int)>::empty());
        }
        t
    }

    /// The offset recorded for this name, if any.
    pub fn get(&self, labels: &Vec<Vec<u8>>) -> (r: Option<usize>)
        ensures
            match spec_lookup(self@, labels.deep_view()) {
                Some(p) => r is Some && r->0 == p,
                None => r is None,
            },
    {
        proof {
            assert(self@.skip(0) =~= self@);
        }
        let mut i: usize = 0;
        while i < self.entries.len()
            invariant
                0 <= i <= self.entries@.len(),
                self@.len() == self.entries@.len(),
                spec_lookup(self@, labels.deep_view()) == spec_lookup(
                    self@.skip(i as int),
                    labels.deep_view(),
                ),
            decreases self.entries@.len() - i,
        {
            proof {
                assert(self@.skip(i as int)[0] == self@[i as int]);
                assert(self@.skip(i as int).drop_first() =~= self@.skip(i as int + 1));
            }
            if labels_eq(&self.entries[i].0, labels) {
                return Some(self.entries[i].1);
            }
            i = i + 1;
        }
        proof {
            assert(self@.skip(i as int).len() == 0);
        }
        None
    }

    /// Record that the name's encoding starts at `off`.
    pub fn insert(&mut self, labels: Vec<Vec<u8>>, off: usize)
        ensures
            final(self)@ == old(self)@.push((labels.deep_view(), off as int)),
    {
        self.entries.push((labels, off));
        proof {
            assert(self@ =~= old(self)@.push((self.entries@.last().0.deep_view(), off as int)));
        }
    }
}

/// Write a name at the end of the buffer. Each suffix of the name that has
/// not been written before is recorded in the table and written as a
/// length byte and the label's bytes; as soon as the remaining suffix is
/// found in the table, a two-byte back pointer to its first encoding is
/// written instead and the name is finished without a terminator.
/// Otherwise a zero byte ends the name.
pub fn encode_labels(buffer: &mut Vec<u8>, table: &mut LabelTable, labels: &Vec<Vec<u8>>)
    requires
        labels_wf(labels.deep_view()),
        table_wf(old(table)@),
        old(buffer)@.len() + spec_name_plain_len(labels.deep_view()) <= 0x4000,
    ensures
        (final(buffer)@, final(table)@) == spec_encode_name(
            old(buffer)@,
            old(table)@,
            labels.deep_view(),
        ),
        table_wf(final(table)@),
{
    let ghost gl = labels.deep_view();
    let ghost target = spec_encode_name(old(buffer)@, old(table)@, gl);
    let mut k: usize = 0;
    proof {
        assert(gl.skip(0) =~= gl);
    }
    loop
        invariant
            k <= labels@.len(),
            gl == labels.deep_view(),
            labels_wf(gl),
            table_wf(table@),
            target == spec_encode_name(old(buffer)@, old(table)@, gl),
            target == spec_encode_name(buffer@, table@, gl.skip(k as int)),
            buffer@.len() + spec_name_plain_len(gl.skip(k as int)) <= 0x4000,
        decreases labels@.len() - k,
    {
        let ghost rest = gl.skip(k as int);
        let ghost buf0 = buffer@;
        let ghost t0 = table@;
        if k == labels.len() {
            proof {
                assert(rest.len() == 0);
            }
            buffer.push(0);
            return;
        }
        proof {
            assert(rest.len() > 0);
            assert(rest[0] == gl[k as int]);
            assert(rest.drop_first() =~= gl.skip(k as int + 1));
            assert(spec_name_plain_len(rest) == 1 + rest[0].len() + spec_name_plain_len(
                rest.drop_first(),
            ));
        }
        let suffix = copy_suffix(labels, k);
        match table.get(&suffix) {
            Some(p) => {
                proof {
                    lemma_lookup_in_table(t0, rest);
                    assert(spec_lookup(t0, rest) == Some(p as int));
                    assert(0 <= p as int <= 0x3fff);
                    assert(spec_encode_name(buf0, t0, rest) == (
                        buf0.push((0xc0 + (p as int) / 256) as u8).push(((p as int) % 256) as u8),
                        t0,
                    ));
                }
                buffer.push((0xc0 + p / 256) as u8);
                buffer.push((p % 256) as u8);
                return;
            },
            None => {
                proof {
                    assert(spec_lookup(t0, rest) is None);
                    lemma_plain_len_pos(rest);
                }
                let off = buffer.len();
                table.insert(suffix, off);
                proof {
                    assert(table@ == t0.push((rest, buf0.len() as int)));
                }
                let lab: &Vec<u8> = &labels[k];
                proof {
                    assert(lab@ =~= gl[k as int]);
                    assert(1 <= lab@.len() <= 63);
                }
                buffer.push(lab.len() as u8);
                let ghost mid = buffer@;
                let mut j: usize = 0;
                while j < lab.len()
                    invariant
                        0 <= j <= lab@.len(),
                        buffer@ == mid + lab@.subrange(0, j as int),
                    decreases lab@.len() - j,
                {
                    buffer.push(lab[j]);
                    proof {
                        assert(buffer@ =~= mid + lab@.subrange(0, j as int + 1));
                    }
                    j = j + 1;
                }
                proof {
                    assert(lab@.subrange(0, lab@.len() as int) =~= lab@);
                    assert(buffer@ =~= mid + lab@);
                    assert(buffer@ == buf0.push(rest[0].len() as u8) + rest[0]);
                    assert(spec_encode_name(buf0, t0, rest) == spec_encode_name(
                        buf0.push(rest[0].len() as u8) + rest[0],
                        t0.push((rest, buf0.len() as int)),
                        rest.drop_first(),
                    ));
                }
                k = k + 1;
            },
        }
    }
}


// ---------------------------------------------------------------------------
// Round-trip machinery: what the encoder writes, the decoder reads back.
// ---------------------------------------------------------------------------

/// True when every label holds well-formed text.
pub open spec fn labels_utf8(s: Seq<Seq<u8>>) -> bool {
    forall|i: int| 0 <= i < s.len() ==> valid_utf8(#[trigger] s[i])
}

/// The name at `off` decodes to exactly `s`, leaving the cursor at `end`,
/// whatever offsets at or above `lo` were already visited. The bound
/// frees a later name to jump here mid-chain: everything it visited so
/// far lies at or above `lo`, while this name's own pointer chain stays
/// strictly below it.
pub open spec fn decodes_to(data: Seq<u8>, off: int, s: Seq<Seq<u8>>, end: int, lo: int) -> bool {
    forall|vs: Set<int>|
        (wf_visited(data, vs) && (forall|v: int| vs.contains(v) ==> v >= lo))
            ==> #[trigger] spec_decode_name(data, off, vs) == NameOut::Done(
            NameOk { labels: s, end },
        )
}

/// A run of literal label records written one after the other: starting
/// at `off`, the labels of `s` down to (excluding) those of `rest` lie in
/// the buffer and reach exactly `stop`.
pub open spec fn lit_run(
    data: Seq<u8>,
    off: int,
    s: Seq<Seq<u8>>,
    rest: Seq<Seq<u8>>,
    stop: int,
) -> bool
    decreases s.len(),
{
    if s.len() == rest.len() {
        s == rest && off == stop
    } else if s.len() > rest.len() {
        let l = s[0];
        &&& 1 <= l.len() <= 63
        &&& 0 <= off
        &&& off + 1 + l.len() <= stop <= data.len()
        &&& data[off] == l.len() as u8
        &&& data.subrange(off + 1, off + 1 + l.len() as int) == l
        &&& lit_run(data, off + 1 + l.len(), s.drop_first(), rest, stop)
    } else {
        false
    }
}

/// Decoding is unchanged when the buffer is extended past everything the
/// decode touches, and when the visited set changes only at offsets the
/// shorter buffer cannot hold.
proof fn lemma_decode_frame(d1: Seq<u8>, d2: Seq<u8>, pos: int, vs1: Set<int>, vs2: Set<int>)
    requires
        0 <= pos,
        wf_visited(d1, vs1),
        wf_visited(d2, vs2),
        d1.len() <= d2.len(),
        d2.subrange(0, d1.len() as int) == d1,
        forall|v: int| v < d1.len() ==> (vs1.contains(v) <==> vs2.contains(v)),
        spec_decode_name(d1, pos, vs1) is Done,
    ensures
        spec_decode_name(d2, pos, vs2) == spec_decode_name(d1, pos, vs1),
    decreases d1.len() - vs1.len(), d1.len() - pos,
{
    lemma_visited_card(d1, vs1);
    assert(forall|i: int| 0 <= i < d1.len() ==> d2[i] == #[trigger] d1[i]) by {
        assert(forall|i: int|
            0 <= i < d1.len() ==> #[trigger] d1[i] == d2.subrange(0, d1.len() as int)[i]);
    }
    assert(pos < d1.len());
    let b = d1[pos];
    if b >= 0xc0 {
        assert(pos + 2 <= d1.len());
        let jump = (b - 0xc0) * 256 + d1[pos + 1];
        assert(!vs1.contains(jump) && jump < d1.len());
        assert(!vs2.contains(jump));
        lemma_visited_card(d1, vs1.insert(jump));
        lemma_decode_frame(d1, d2, jump, vs1.insert(jump), vs2.insert(jump));
    } else if b != 0 {
        assert(pos + 1 + b <= d1.len());
        assert(d2.subrange(pos + 1, pos + 1 + b) =~= d1.subrange(pos + 1, pos + 1 + b));
        assert(valid_utf8(d1.subrange(pos + 1, pos + 1 + b)));
        lemma_decode_frame(d1, d2, pos + 1 + b, vs1, vs2);
    }
}

/// `decodes_to` survives extending the buffer.
pub proof fn lemma_decodes_to_frame(
    d1: Seq<u8>,
    d2: Seq<u8>,
    off: int,
    s: Seq<Seq<u8>>,
    end: int,
    lo: int,
)
    requires
        0 <= off,
        d1.len() <= d2.len(),
        d2.subrange(0, d1.len() as int) == d1,
        decodes_to(d1, off, s, end, lo),
    ensures
        decodes_to(d2, off, s, end, lo),
{
    assert forall|vs: Set<int>|
        (wf_visited(d2, vs) && (forall|v: int| vs.contains(v) ==> v >= lo)) implies #[trigger]
    spec_decode_name(d2, off, vs) == NameOut::Done(NameOk { labels: s, end }) by {
        let vs1 = vs.intersect(Set::new(|v: int| 0 <= v < d1.len()));
        lemma_int_range(0, d1.len() as int);
        assert(Set::new(|v: int| 0 <= v < d1.len()) =~= set_int_range(0, d1.len() as int));
        lemma_len_subset(vs1, set_int_range(0, d1.len() as int));
        assert(wf_visited(d1, vs1));
        assert(forall|v: int| vs1.contains(v) ==> v >= lo);
        assert(spec_decode_name(d1, off, vs1) == NameOut::Done(NameOk { labels: s, end }));
        assert(forall|v: int| v < d1.len() ==> (vs1.contains(v) <==> vs.contains(v)));
        lemma_decode_frame(d1, d2, off, vs1, vs);
    }
}

/// A literal run survives extending the buffer: everything it reads lies
/// below its fixed stop position.
proof fn lemma_lit_run_frame(
    d1: Seq<u8>,
    d2: Seq<u8>,
    off: int,
    s: Seq<Seq<u8>>,
    rest: Seq<Seq<u8>>,
    stop: int,
)
    requires
        d1.len() <= d2.len(),
        d2.subrange(0, d1.len() as int) == d1,
        lit_run(d1, off, s, rest, stop),
    ensures
        lit_run(d2, off, s, rest, stop),
    decreases s.len(),
{
    assert(forall|i: int| 0 <= i < d1.len() ==> d2[i] == #[trigger] d1[i]) by {
        assert(forall|i: int|
            0 <= i < d1.len() ==> #[trigger] d1[i] == d2.subrange(0, d1.len() as int)[i]);
    }
    if s.len() > rest.len() {
        let l = s[0];
        assert(d2.subrange(off + 1, off + 1 + l.len() as int) =~= d1.subrange(
            off + 1,
            off + 1 + l.len() as int,
        ));
        lemma_lit_run_frame(d1, d2, off + 1 + l.len(), s.drop_first(), rest, stop);
    }
}

/// Writing the next pending label extends every literal run by one
/// record and moves the stop to the new end of the buffer.
proof fn lemma_lit_run_step(
    buf: Seq<u8>,
    off: int,
    s: Seq<Seq<u8>>,
    rest: Seq<Seq<u8>>,
)
    requires
        lit_run(buf, off, s, rest, buf.len() as int),
        rest.len() > 0,
        1 <= rest[0].len() <= 63,
    ensures
        lit_run(
            buf.push(rest[0].len() as u8) + rest[0],
            off,
            s,
            rest.drop_first(),
            buf.len() + 1 + rest[0].len() as int,
        ),
    decreases s.len(),
{
    let l = rest[0];
    let d2 = buf.push(l.len() as u8) + l;
    assert(d2.subrange(0, buf.len() as int) =~= buf);
    assert(forall|i: int| 0 <= i < buf.len() ==> d2[i] == #[trigger] buf[i]) by {
        assert(forall|i: int|
            0 <= i < buf.len() ==> #[trigger] buf[i] == d2.subrange(0, buf.len() as int)[i]);
    }
    if s.len() == rest.len() {
        assert(s == rest && off == buf.len());
        assert(s[0] == l);
        assert(d2[off] == l.len() as u8);
        assert(d2.subrange(off + 1, off + 1 + l.len() as int) =~= l);
        assert(s.drop_first() =~= rest.drop_first());
        assert(lit_run(d2, off + 1 + l.len(), s.drop_first(), rest.drop_first(), d2.len() as int));
    } else {
        let l0 = s[0];
        assert(d2.subrange(off + 1, off + 1 + l0.len() as int) =~= buf.subrange(
            off + 1,
            off + 1 + l0.len() as int,
        ));
        lemma_lit_run_step(buf, off + 1 + l0.len(), s.drop_first(), rest);
    }
}

/// A literal run followed by a decode of the remaining labels decodes to
/// the whole label sequence: the run's records are read one by one, the
/// visited set untouched, until the decode at the stop position takes
/// over.
proof fn lemma_lit_run_decode(
    data: Seq<u8>,
    off: int,
    s: Seq<Seq<u8>>,
    rest: Seq<Seq<u8>>,
    stop: int,
    end: int,
    lo: int,
)
    requires
        lit_run(data, off, s, rest, stop),
        labels_utf8(s),
        decodes_to(data, stop, rest, end, lo),
    ensures
        decodes_to(data, off, s, end, lo),
    decreases s.len(),
{
    if s.len() == rest.len() {
        assert(s == rest && off == stop);
    } else {
        let l = s[0];
        assert(valid_utf8(l));
        assert(labels_utf8(s.drop_first())) by {
            assert(forall|i: int|
                0 <= i < s.drop_first().len() ==> #[trigger] s.drop_first()[i] == s[i + 1]);
        }
        lemma_lit_run_decode(data, off + 1 + l.len(), s.drop_first(), rest, stop, end, lo);
        assert forall|vs: Set<int>|
            (wf_visited(data, vs) && (forall|v: int| vs.contains(v) ==> v >= lo)) implies #[trigger]
        spec_decode_name(data, off, vs) == NameOut::Done(NameOk { labels: s, end }) by {
            let b = data[off];
            assert(b == l.len() as u8);
            assert(b < 0xc0 && b != 0);
            assert(data.subrange(off + 1, off + 1 + b) == l);
            assert(spec_decode_name(data, off + 1 + l.len(), vs) == NameOut::Done(
                NameOk { labels: s.drop_first(), end },
            ));
            assert(seq![l] + s.drop_first() =~= s);
        }
    }
}

/// A table entry is well formed: its offset fits a 14-bit pointer and
/// lies inside the written buffer, and it records a nonempty name of
/// wire-legal, well-formed labels.
pub open spec fn entry_wf(e: (Seq<Seq<u8>>, int), hi: int) -> bool {
    &&& 0 <= e.1 <= 0x3fff
    &&& e.1 < hi
    &&& e.0.len() >= 1
    &&& labels_wf(e.0)
    &&& labels_utf8(e.0)
}

/// The entry's recorded name decodes at its offset, for every visited set
/// above some bound below the offset.
pub open spec fn entry_decodes(data: Seq<u8>, e: (Seq<Seq<u8>>, int)) -> bool {
    exists|lo: int, end: int| 0 <= lo <= e.1 && #[trigger] decodes_to(data, e.1, e.0, end, lo)
}

/// Dropping a name's first label keeps the rest wire-legal and
/// well-formed.
proof fn lemma_labels_tail(s: Seq<Seq<u8>>)
    requires
        labels_wf(s),
        labels_utf8(s),
        s.len() > 0,
    ensures
        labels_wf(s.drop_first()),
        labels_utf8(s.drop_first()),
{
    assert(forall|i: int|
        0 <= i < s.drop_first().len() ==> #[trigger] s.drop_first()[i] == s[i + 1]);
}

/// The heart of the compression proof. Encoding a name leaves a buffer
/// in which the name decodes at its start, every table entry decodes at
/// its recorded offset, and the entries recorded while this name was
/// being written decode for any visited set at or above the name's start.
/// The pending entries of the current name (recorded, but waiting for the
/// name's terminator) are carried as literal runs that the terminator
/// completes.
pub proof fn lemma_encode_name_decodes(buf: Seq<u8>, table: TableV, labels: Seq<Seq<u8>>, n_start: int)
    requires
        0 <= n_start <= buf.len(),
        buf.len() + spec_name_plain_len(labels) <= 0x4000,
        labels_wf(labels),
        labels_utf8(labels),
        forall|i: int| 0 <= i < table.len() ==> entry_wf(#[trigger] table[i], buf.len() as int),
        forall|i: int|
            0 <= i < table.len() && table[i].1 < n_start ==> entry_decodes(
                buf,
                #[trigger] table[i],
            ),
        forall|i: int|
            0 <= i < table.len() && table[i].1 >= n_start ==> ((#[trigger] table[i]).0.len()
                > labels.len() && lit_run(buf, table[i].1, table[i].0, labels, buf.len() as int)),
    ensures
        ({
            let (b2, t2) = spec_encode_name(buf, table, labels);
            &&& forall|i: int| 0 <= i < t2.len() ==> entry_wf(#[trigger] t2[i], b2.len() as int)
            &&& forall|i: int| 0 <= i < t2.len() ==> entry_decodes(b2, #[trigger] t2[i])
            &&& forall|i: int|
                0 <= i < t2.len() && t2[i].1 >= n_start ==> decodes_to(
                    b2,
                    (#[trigger] t2[i]).1,
                    t2[i].0,
                    b2.len() as int,
                    n_start,
                )
            &&& decodes_to(b2, buf.len() as int, labels, b2.len() as int, n_start)
        }),
    decreases labels.len(),
{
    lemma_encode_name_grows(buf, table, labels);
    let (b2, t2) = spec_encode_name(buf, table, labels);
    if labels.len() == 0 {
        assert(b2 =~= buf.push(0));
        assert forall|vs: Set<int>|
            (wf_visited(b2, vs) && (forall|v: int| vs.contains(v) ==> v >= n_start)) implies (
        #[trigger] spec_decode_name(b2, buf.len() as int, vs) == NameOut::Done(
            NameOk { labels, end: b2.len() as int },
        )) by {
            assert(b2[buf.len() as int] == 0);
            assert(labels =~= Seq::<Seq<u8>>::empty());
        }
        assert(decodes_to(b2, buf.len() as int, labels, b2.len() as int, n_start));
        assert forall|i: int| 0 <= i < t2.len() implies entry_decodes(b2, #[trigger] t2[i])
            && (t2[i].1 >= n_start ==> decodes_to(
            b2,
            t2[i].1,
            t2[i].0,
            b2.len() as int,
            n_start,
        )) by {
            let e = t2[i];
            if e.1 < n_start {
                let (lo, end) = choose|lo: int, end: int|
                    0 <= lo <= e.1 && #[trigger] decodes_to(buf, e.1, e.0, end, lo);
                lemma_decodes_to_frame(buf, b2, e.1, e.0, end, lo);
                assert(decodes_to(b2, e.1, e.0, end, lo));
            } else {
                lemma_lit_run_frame(buf, b2, e.1, e.0, labels, buf.len() as int);
                lemma_lit_run_decode(
                    b2,
                    e.1,
                    e.0,
                    labels,
                    buf.len() as int,
                    b2.len() as int,
                    n_start,
                );
                assert(decodes_to(b2, e.1, e.0, b2.len() as int, n_start));
                assert(0 <= n_start <= e.1);
            }
        }
    } else {
        match spec_lookup(table, labels) {
            Some(p) => {
                lemma_lookup_in_table(table, labels);
                let j = choose|j: int|
                    0 <= j < table.len() && (#[trigger] table[j]).0 == labels && table[j].1 == p;
                assert(entry_wf(table[j], buf.len() as int));
                assert(p < n_start);
                let (lo0, end0) = choose|lo: int, end: int|
                    0 <= lo <= p && #[trigger] decodes_to(buf, p, labels, end, lo);
                lemma_decodes_to_frame(buf, b2, p, labels, end0, lo0);
                assert(b2 =~= buf.push((0xc0 + p / 256) as u8).push((p % 256) as u8));
                assert forall|vs: Set<int>|
                    (wf_visited(b2, vs) && (forall|v: int| vs.contains(v) ==> v >= n_start))
                    implies (#[trigger] spec_decode_name(b2, buf.len() as int, vs)
                    == NameOut::Done(NameOk { labels, end: b2.len() as int })) by {
                    let b = b2[buf.len() as int];
                    assert(b == (0xc0 + p / 256) as u8);
                    assert(0 <= p / 256 <= 0x3f);
                    assert(b >= 0xc0);
                    let jump = (b - 0xc0) * 256 + b2[buf.len() as int + 1];
                    assert(b2[buf.len() as int + 1] == (p % 256) as u8);
                    assert(jump == p);
                    assert(!vs.contains(p));
                    let vs2 = vs.insert(p);
                    assert(wf_visited(b2, vs2));
                    assert(forall|v: int| vs2.contains(v) ==> v >= lo0);
                    assert(spec_decode_name(b2, p, vs2) == NameOut::Done(
                        NameOk { labels, end: end0 },
                    ));
                }
                assert(decodes_to(b2, buf.len() as int, labels, b2.len() as int, n_start));
                assert forall|i: int| 0 <= i < t2.len() implies entry_decodes(b2, #[trigger] t2[i])
                    && (t2[i].1 >= n_start ==> decodes_to(
                    b2,
                    t2[i].1,
                    t2[i].0,
                    b2.len() as int,
                    n_start,
                )) by {
                    let e = t2[i];
                    if e.1 < n_start {
                        let (lo, end) = choose|lo: int, end: int|
                            0 <= lo <= e.1 && #[trigger] decodes_to(buf, e.1, e.0, end, lo);
                        lemma_decodes_to_frame(buf, b2, e.1, e.0, end, lo);
                        assert(decodes_to(b2, e.1, e.0, end, lo));
                    } else {
                        lemma_lit_run_frame(buf, b2, e.1, e.0, labels, buf.len() as int);
                        lemma_lit_run_decode(
                            b2,
                            e.1,
                            e.0,
                            labels,
                            buf.len() as int,
                            b2.len() as int,
                            n_start,
                        );
                        assert(decodes_to(b2, e.1, e.0, b2.len() as int, n_start));
                        assert(0 <= n_start <= e.1);
                    }
                }
            },
            None => {
                let l = labels[0];
                let mid = buf.push(l.len() as u8) + l;
                let t2p = table.push((labels, buf.len() as int));
                lemma_labels_tail(labels);
                lemma_plain_len_pos(labels.drop_first());
                assert(mid.subrange(0, buf.len() as int) =~= buf);
                assert forall|i: int|
                    0 <= i < t2p.len() implies entry_wf(#[trigger] t2p[i], mid.len() as int) by {}
                assert forall|i: int|
                    0 <= i < t2p.len() && t2p[i].1 < n_start implies entry_decodes(
                    mid,
                    #[trigger] t2p[i],
                ) by {
                    let e = t2p[i];
                    let (lo, end) = choose|lo: int, end: int|
                        0 <= lo <= e.1 && #[trigger] decodes_to(buf, e.1, e.0, end, lo);
                    lemma_decodes_to_frame(buf, mid, e.1, e.0, end, lo);
                    assert(decodes_to(mid, e.1, e.0, end, lo));
                }
                assert forall|i: int|
                    0 <= i < t2p.len() && t2p[i].1 >= n_start implies ((#[trigger] t2p[i]).0.len()
                    > labels.drop_first().len() && lit_run(
                    mid,
                    t2p[i].1,
                    t2p[i].0,
                    labels.drop_first(),
                    mid.len() as int,
                )) by {
                    let e = t2p[i];
                    if i < table.len() {
                        lemma_lit_run_step(buf, e.1, e.0, labels);
                    } else {
                        assert(e == (labels, buf.len() as int));
                        assert(mid[buf.len() as int] == l.len() as u8);
                        assert(mid.subrange(
                            buf.len() as int + 1,
                            buf.len() + 1 + l.len() as int,
                        ) =~= l);
                        assert(lit_run(
                            mid,
                            mid.len() as int,
                            labels.drop_first(),
                            labels.drop_first(),
                            mid.len() as int,
                        ));
                    }
                }
                lemma_encode_name_decodes(mid, t2p, labels.drop_first(), n_start);
                lemma_encode_name_grows(mid, t2p, labels.drop_first());
                let (b3, t3) = spec_encode_name(mid, t2p, labels.drop_first());
                assert(b3 == b2 && t3 == t2);
                assert(t3[table.len() as int] == (labels, buf.len() as int));
                assert(decodes_to(b2, buf.len() as int, labels, b2.len() as int, n_start));
            },
        }
    }
}
/// Law: what the name encoder writes into a fresh buffer region, the
/// name decoder reads back, labels and end position alike. This is the
/// round trip of a single name against an empty label table.
pub proof fn lemma_name_round_trip(buf: Seq<u8>, labels: Seq<Seq<u8>>)
    requires
        labels_wf(labels),
        labels_utf8(labels),
        buf.len() + spec_name_plain_len(labels) <= 0x4000,
    ensures
        ({
            let (b2, t2) = spec_encode_name(buf, Seq::empty(), labels);
            spec_decode_name(b2, buf.len() as int, Set::empty()) == NameOut::Done(
                NameOk { labels, end: b2.len() as int },
            )
        }),
{
    lemma_encode_name_decodes(buf, Seq::empty(), labels, buf.len() as int);
    let (b2, t2) = spec_encode_name(buf, Seq::empty(), labels);
    assert(wf_visited(b2, Set::<int>::empty()));
    assert(spec_decode_name(b2, buf.len() as int, Set::<int>::empty()) == NameOut::Done(
        NameOk { labels, end: b2.len() as int },
    ));
}

} // verus!
