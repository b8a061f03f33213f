use vstd::prelude::*;

verus! {

/// What `base64::decode` makes of a text: the bytes, or `None` when the
/// text is not valid base64.
pub uninterp spec fn base64_decoded(s: Seq<char>) -> Option<Seq<u8>>;

/// What `base64::encode` makes of a byte sequence.
pub uninterp spec fn base64_encoded(b: Seq<u8>) -> Seq<char>;

/// Relies on base64::decode (standard alphabet): the decoded bytes, or an
/// error for malformed input; the result depends on the text alone.
#[verifier::external_body]
pub(crate) fn decode_base64(s: &str) -> (r: Option<Vec<u8>>)
    ensures
        match r {
            Some(v) => base64_decoded(s@) == Some(v@),
            None => base64_decoded(s@) is None,
        },
{
    match base64::decode(s) {
        Ok(v) => Some(v),
        Err(_) => None,
    }
}

/// Relies on base64::encode (standard alphabet); the result depends on the
/// bytes alone.
#[verifier::external_body]
pub(crate) fn encode_base64(b: &Vec<u8>) -> (r: String)
    ensures
        r@ == base64_encoded(b@),
{
    base64::encode(b)
}

/// Type bytes that may be forwarded to the other players.
pub open spec fn is_valid_type(t: u8) -> bool {
    t == 77u8 /* M */ || t == 35u8 /* # */ || t == 43u8 /* + */ || t == 76u8 /* L */
    || t == 108u8 /* l */ || t == 82u8 /* R */ || t == 114u8 /* r */ || t == 85u8 /* U */
    || t == 117u8 /* u */ || t == 68u8 /* D */ || t == 100u8 /* d */ || t == 90u8 /* Z */
    || t == 122u8 /* z */ || t == 65u8 /* A */ || t == 97u8 /* a */ || t == 83u8 /* S */
    || t == 106u8 /* j */ || t == 74u8 /* J */ || t == 44u8 /* , */ || t == 78u8 /* N */
    || t == 112u8 /* p */ || t == 80u8 /* P */ || t == 119u8 /* w */ || t == 116u8 /* t */
    || t == 103u8 /* g */ || t == 102u8 /* f */ || t == 104u8 /* h */ || t == 98u8 /* b */
    || t == 99u8 /* c */ || (49u8 <= t && t <= 53u8) /* 1 to 5 */
    || (0x80u8 <= t && t <= 0x8Au8)
}

/// Type bytes of messages that take no game time.
pub open spec fn is_non_timed_type(t: u8) -> bool {
    t == 77u8 /* M */ || t == 35u8 /* # */ || t == 104u8 /* h */ || t == 98u8 /* b */
}

/// The type byte of a hedgehog switch.
pub const HEDGEHOG_SWITCH: u8 = 104;

/// The type byte of a message that does nothing.
pub const EMPTY_MESSAGE: u8 = 43;

/// A record (length byte first) that may be forwarded: its type is in the
/// whitelist, and a hedgehog switch carries an index byte from 1 to 8
/// followed by a team byte that the sender plays.
pub open spec fn is_valid_record(m: Seq<u8>, team_indices: Seq<u8>) -> bool {
    &&& m.len() >= 2
    &&& is_valid_type(m[1])
    &&& m[1] == HEDGEHOG_SWITCH ==> {
        &&& m.len() >= 4
        &&& 1 <= m[2] <= 8
        &&& team_indices.contains(m[3])
    }
}

/// A record whose type marks a message that does nothing.
pub open spec fn is_empty_record(m: Seq<u8>) -> bool {
    m.len() >= 2 && m[1] == EMPTY_MESSAGE
}

/// Whether a record goes into the forwarded batch (`forward`) or into the
/// replay log (`!forward`).
pub open spec fn is_kept(m: Seq<u8>, team_indices: Seq<u8>, forward: bool) -> bool {
    if forward {
        is_valid_record(m, team_indices)
    } else {
        !is_empty_record(m)
    }
}

/// Cuts `s` into records of one length byte and that many bytes, and joins
/// the records that are kept; `None` when the last record is cut short.
pub open spec fn kept_records(s: Seq<u8>, team_indices: Seq<u8>, forward: bool) -> Option<Seq<u8>>
    decreases s.len(),
{
    if s.len() == 0 {
        Some(Seq::empty())
    } else {
        let n = s[0] as int + 1;
        if n > s.len() {
            None
        } else {
            let m = s.subrange(0, n);
            match kept_records(s.subrange(n, s.len() as int), team_indices, forward) {
                None => None,
                Some(rest) => Some(if is_kept(m, team_indices, forward) { m + rest } else { rest }),
            }
        }
    }
}

/// `Some(prefix + x)` for `Some(x)`.
pub open spec fn prepend(prefix: Seq<u8>, o: Option<Seq<u8>>) -> Option<Seq<u8>> {
    match o {
        None => None,
        Some(x) => Some(prefix + x),
    }
}

/// The records of `rs` one after the other.
pub open spec fn joined(rs: Seq<Seq<u8>>) -> Seq<u8>
    decreases rs.len(),
{
    if rs.len() == 0 {
        Seq::empty()
    } else {
        rs[0] + joined(rs.subrange(1, rs.len() as int))
    }
}

/// A record whose length byte gives the length of the rest.
pub open spec fn is_framed(m: Seq<u8>) -> bool {
    m.len() >= 1 && m[0] as int + 1 == m.len()
}

/// Whether a type byte is in the whitelist of forwarded messages.
pub fn is_valid_message_type(t: u8) -> (r: bool)
    ensures
        r == is_valid_type(t),
{
    t == 77u8 || t == 35u8 || t == 43u8 || t == 76u8 || t == 108u8 || t == 82u8 || t == 114u8
        || t == 85u8 || t == 117u8 || t == 68u8 || t == 100u8 || t == 90u8 || t == 122u8
        || t == 65u8 || t == 97u8 || t == 83u8 || t == 106u8 || t == 74u8 || t == 44u8
        || t == 78u8 || t == 112u8 || t == 80u8 || t == 119u8 || t == 116u8 || t == 103u8
        || t == 102u8 || t == 104u8 || t == 98u8 || t == 99u8 || (49u8 <= t && t <= 53u8)
        || (0x80u8 <= t && t <= 0x8Au8)
}

/// Whether a type byte marks a message that takes no game time.
pub fn is_non_timed_message_type(t: u8) -> (r: bool)
    ensures
        r == is_non_timed_type(t),
{
    t == 77u8 || t == 35u8 || t == 104u8 || t == 98u8
}

fn contains_byte(v: &Vec<u8>, b: u8) -> (r: bool)
    ensures
        r == v@.contains(b),
{
    let mut i: usize = 0;
    while i < v.len()
        invariant
            i <= v.len(),
            forall|j: int| 0 <= j < i ==> v@[j] != b,
        decreases v.len() - i,
    {
        if v[i] == b {
            return true;
        }
        i += 1;
    }
    false
}

/// Whether the record `msg` may be forwarded for a sender that plays
/// `team_indices`.
pub fn is_msg_valid(msg: &[u8], team_indices: &Vec<u8>) -> (r: bool)
    ensures
        r == is_valid_record(msg@, team_indices@),
{
    if msg.len() < 2 {
        return false;
    }
    let typ = msg[1];
    if !is_valid_message_type(typ) {
        false
    } else if typ == HEDGEHOG_SWITCH {
        msg.len() >= 4 && 1 <= msg[2] && msg[2] <= 8 && contains_byte(team_indices, msg[3])
    } else {
        true
    }
}

/// Whether the record `msg` does nothing.
pub fn is_msg_empty(msg: &[u8]) -> (r: bool)
    ensures
        r == is_empty_record(msg@),
{
    msg.len() >= 2 && msg[1] == EMPTY_MESSAGE
}

/// Cuts `s` into records and joins those kept for forwarding (`forward`) or
/// for the replay log (`!forward`); `None` when the last record is cut short.
pub fn filter_records(s: &Vec<u8>, team_indices: &Vec<u8>, forward: bool) -> (r: Option<Vec<u8>>)
    ensures
        match r {
            Some(v) => kept_records(s@, team_indices@, forward) == Some(v@),
            None => kept_records(s@, team_indices@, forward) is None,
        },
{
    let len = s.len();
    let mut acc: Vec<u8> = Vec::new();
    let mut i: usize = 0;
    proof {
        assert(s@.subrange(0, len as int) =~= s@);
        assert(acc@ + Seq::<u8>::empty() =~= Seq::<u8>::empty());
    }
    while i < len
        invariant
            len == s@.len(),
            i <= len,
            kept_records(s@, team_indices@, forward) == prepend(
                acc@,
                kept_records(s@.subrange(i as int, len as int), team_indices@, forward),
            ),
        decreases len - i,
    {
        let ghost t = s@.subrange(i as int, len as int);
        let n: usize = s[i] as usize + 1;
        if n > len - i {
            return None;
        }
        let msg = vstd::slice::slice_subrange(s.as_slice(), i, i + n);
        let keep = if forward {
            is_msg_valid(msg, team_indices)
        } else {
            !is_msg_empty(msg)
        };
        let ghost before = acc@;
        if keep {
            let mut j: usize = 0;
            while j < n
                invariant
                    j <= n,
                    msg@.len() == n,
                    acc@ == before + msg@.subrange(0, j as int),
                decreases n - j,
            {
                acc.push(msg[j]);
                proof {
                    assert(msg@.subrange(0, j + 1) =~= msg@.subrange(0, j as int).push(msg@[j as int]));
                }
                j += 1;
            }
            proof {
                assert(msg@.subrange(0, n as int) =~= msg@);
            }
        }
        proof {
            assert(t[0] == s@[i as int]);
            assert(t.subrange(0, n as int) =~= msg@);
            assert(t.subrange(n as int, t.len() as int) =~= s@.subrange((i + n) as int, len as int));
            let rest = kept_records(s@.subrange((i + n) as int, len as int), team_indices@, forward);
            if let Some(x) = rest {
                if keep {
                    assert(before + (msg@ + x) =~= acc@ + x);
                } else {
                    assert(acc@ =~= before);
                }
            }
        }
        i = i + n;
    }
    proof {
        assert(acc@ + Seq::<u8>::empty() =~= acc@);
    }
    Some(acc)
}

/// Records that are framed and valid for a sender pass the forwarding
/// filter whole: the forwarded batch is the records one after the other.
pub proof fn lemma_valid_records_forwarded(rs: Seq<Seq<u8>>, team_indices: Seq<u8>)
    requires
        forall|i: int| 0 <= i < rs.len() ==> is_framed(#[trigger] rs[i]) && is_valid_record(rs[i], team_indices),
    ensures
        kept_records(joined(rs), team_indices, true) == Some(joined(rs)),
    decreases rs.len(),
{
    if rs.len() > 0 {
        let tail = rs.subrange(1, rs.len() as int);
        assert forall|i: int| 0 <= i < tail.len() implies is_framed(#[trigger] tail[i]) && is_valid_record(tail[i], team_indices) by {
            assert(tail[i] == rs[i + 1]);
        }
        lemma_valid_records_forwarded(tail, team_indices);
        let s = joined(rs);
        assert(is_framed(rs[0]));
        let n = rs[0].len() as int;
        assert(s[0] == rs[0][0]);
        assert(s.subrange(0, n) =~= rs[0]);
        assert(s.subrange(n, s.len() as int) =~= joined(tail));
    }
}

/// A batch made only of framed messages that do nothing leaves nothing for
/// the replay log.
pub proof fn lemma_empty_records_not_logged(rs: Seq<Seq<u8>>, team_indices: Seq<u8>)
    requires
        forall|i: int| 0 <= i < rs.len() ==> is_framed(#[trigger] rs[i]) && is_empty_record(rs[i]),
    ensures
        kept_records(joined(rs), team_indices, false) == Some(Seq::<u8>::empty()),
    decreases rs.len(),
{
    if rs.len() > 0 {
        let tail = rs.subrange(1, rs.len() as int);
        assert forall|i: int| 0 <= i < tail.len() implies is_framed(#[trigger] tail[i]) && is_empty_record(tail[i]) by {
            assert(tail[i] == rs[i + 1]);
        }
        lemma_empty_records_not_logged(tail, team_indices);
        let s = joined(rs);
        assert(is_framed(rs[0]));
        let n = rs[0].len() as int;
        assert(s[0] == rs[0][0]);
        assert(s.subrange(0, n) =~= rs[0]);
        assert(s.subrange(n, s.len() as int) =~= joined(tail));
    }
}

} // verus!
