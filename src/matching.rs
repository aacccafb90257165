//! The mathematical model of boundary scanning.
//!
//! The scanner compares the stream with the boundary one byte at a time. It keeps a
//! cursor, the number of boundary bytes matched so far. A byte that extends the run
//! advances the cursor. A byte that breaks the run resets the cursor to zero, and that
//! byte is content: it is not tried again as the first byte of a new run.
use vstd::prelude::*;

verus! {

/// Where the scanner finds the boundary `b` in `s` when it starts at position `i`
/// with `c` boundary bytes already matched: the position of the boundary's first byte,
/// or `None` when the input ends first.
pub open spec fn match_from(s: Seq<u8>, b: Seq<u8>, i: nat, c: nat) -> Option<nat>
    decreases s.len() - i,
{
    if c >= b.len() {
        Some((i - c) as nat)
    } else if i >= s.len() {
        None
    } else if s[i as int] == b[c as int] {
        match_from(s, b, i + 1, c + 1)
    } else {
        match_from(s, b, i + 1, 0)
    }
}

/// Where the boundary starts in the stream, as the scanner finds it.
pub open spec fn boundary_start(s: Seq<u8>, b: Seq<u8>) -> Option<nat> {
    match_from(s, b, 0, 0)
}

/// The number of content bytes before the boundary: the whole stream when the scanner
/// never finds the boundary.
pub open spec fn content_len(s: Seq<u8>, b: Seq<u8>) -> nat {
    match boundary_start(s, b) {
        Some(d) => d,
        None => s.len(),
    }
}

/// What a scan with byte cap `max_len` forwards: the content before the boundary,
/// cut after `max_len` bytes.
pub open spec fn extracted(s: Seq<u8>, b: Seq<u8>, max_len: nat) -> Seq<u8> {
    if content_len(s, b) <= max_len {
        s.take(content_len(s, b) as int)
    } else {
        s.take(max_len as int)
    }
}

/// The scanner's cursor after it has read the first `i` bytes of `s`, provided it has
/// not completed a match on the way.
pub open spec fn cursor_at(s: Seq<u8>, b: Seq<u8>, i: nat) -> nat
    decreases i,
{
    if i == 0 {
        0
    } else {
        let c = cursor_at(s, b, (i - 1) as nat);
        if c < b.len() && s[i - 1] == b[c as int] {
            c + 1
        } else {
            0
        }
    }
}

/// `b` stands in `s` at position `p`.
pub open spec fn occurs_at(s: Seq<u8>, b: Seq<u8>, p: nat) -> bool {
    p + b.len() <= s.len() && s.subrange(p as int, p + b.len() as int) == b
}

/// A match that the scanner completes is an occurrence of the boundary, and it does not
/// start before the bytes it is still holding as a partial match.
pub proof fn lemma_match_is_occurrence(s: Seq<u8>, b: Seq<u8>, i: nat, c: nat)
    requires
        c <= i <= s.len(),
        c <= b.len(),
        s.subrange(i - c, i as int) == b.take(c as int),
    ensures
        match match_from(s, b, i, c) {
            Some(d) => i - c <= d && occurs_at(s, b, d),
            None => true,
        },
    decreases s.len() - i,
{
    if c >= b.len() {
        assert(b.take(c as int) =~= b);
    } else if i >= s.len() {
    } else if s[i as int] == b[c as int] {
        let (ii, cc) = (i as int, c as int);
        assert(s.subrange(ii + 1 - (cc + 1), ii + 1) =~= s.subrange(ii - cc, ii).push(s[ii]));
        assert(b.take(cc + 1) =~= b.take(cc).push(b[cc]));
        lemma_match_is_occurrence(s, b, i + 1, c + 1);
    } else {
        assert(s.subrange(i + 1 - 0, (i + 1) as int) =~= b.take(0));
        lemma_match_is_occurrence(s, b, i + 1, 0);
    }
}

/// Until the scanner completes a match, scanning from the start and scanning from
/// position `i` with the cursor it has there find the same boundary.
pub proof fn lemma_cursor_state(s: Seq<u8>, b: Seq<u8>, i: nat)
    requires
        i <= s.len(),
        forall|j: nat| j <= i ==> #[trigger] cursor_at(s, b, j) < b.len(),
    ensures
        boundary_start(s, b) == match_from(s, b, i, cursor_at(s, b, i)),
    decreases i,
{
    if i > 0 {
        let k = (i - 1) as nat;
        assert(cursor_at(s, b, k) < b.len());
        lemma_cursor_state(s, b, k);
    }
}

/// With no match completed and nothing held, the scanner finds a boundary that starts
/// right at its position.
proof fn lemma_match_here(s: Seq<u8>, b: Seq<u8>, i: nat, c: nat)
    requires
        c <= b.len(),
        i + b.len() - c <= s.len(),
        s.subrange(i as int, i + b.len() - c) == b.subrange(c as int, b.len() as int),
    ensures
        match_from(s, b, i, c) == Some((i - c) as nat),
    decreases b.len() - c,
{
    if c < b.len() {
        let (ii, cc, n) = (i as int, c as int, b.len() as int);
        assert(s[ii] == s.subrange(ii, ii + n - cc)[0]);
        assert(s.subrange(ii + 1, ii + 1 + n - (cc + 1)) =~= s.subrange(ii, ii + n - cc).drop_first());
        assert(b.subrange(cc + 1, n) =~= b.subrange(cc, n).drop_first());
        lemma_match_here(s, b, i + 1, c + 1);
    }
}

/// A prefix of the stream that reaches the cap, or reaches the content's end without
/// passing the cap, is what a scan forwards.
pub proof fn lemma_extracted_is_prefix(s: Seq<u8>, b: Seq<u8>, max_len: nat, x: nat)
    requires
        x <= max_len,
        x <= content_len(s, b),
        x == max_len || x == content_len(s, b),
        content_len(s, b) <= s.len(),
    ensures
        extracted(s, b, max_len) == s.take(x as int),
{
}

/// The content never extends past the stream.
pub proof fn lemma_content_len_bound(s: Seq<u8>, b: Seq<u8>)
    ensures
        content_len(s, b) <= s.len(),
{
    assert(s.subrange(0, 0) =~= b.take(0));
    lemma_match_is_occurrence(s, b, 0, 0);
}

/// After reading `j` bytes the scanner's cursor counts the bytes just read that
/// spell the start of the boundary.
pub proof fn lemma_cursor_spells_boundary(s: Seq<u8>, b: Seq<u8>, j: nat)
    requires
        j <= s.len(),
    ensures
        cursor_at(s, b, j) <= j,
        cursor_at(s, b, j) <= b.len(),
        s.subrange(j - cursor_at(s, b, j), j as int) == b.take(cursor_at(s, b, j) as int),
    decreases j,
{
    if j > 0 {
        let k = (j - 1) as nat;
        lemma_cursor_spells_boundary(s, b, k);
        let c = cursor_at(s, b, k);
        if c < b.len() && s[k as int] == b[c as int] {
            assert(s.subrange(j - (c + 1), j as int) =~= s.subrange(k - c, k as int).push(s[k as int]));
            assert(b.take((c + 1) as int) =~= b.take(c as int).push(b[c as int]));
        } else {
            assert(s.subrange(j as int, j as int) =~= b.take(0));
        }
    } else {
        assert(s.subrange(0, 0) =~= b.take(0));
    }
}

/// A boundary that stands exactly once in the stream, and does not begin while the
/// scanner is inside a partial match, is found where it stands: when the cap does not
/// come first, the scan forwards exactly the bytes before it.
pub proof fn lemma_single_boundary_found(s: Seq<u8>, b: Seq<u8>, p: nat, max_len: nat)
    requires
        occurs_at(s, b, p),
        forall|q: nat| #[trigger] occurs_at(s, b, q) ==> q == p,
        cursor_at(s, b, p) == 0,
        p <= max_len,
    ensures
        boundary_start(s, b) == Some(p),
        content_len(s, b) == p,
        extracted(s, b, max_len) == s.take(p as int),
{
    if b.len() == 0 {
        assert(s.subrange(0, 0) =~= b);
        assert(occurs_at(s, b, 0));
    } else {
        assert forall|j: nat| j <= p implies #[trigger] cursor_at(s, b, j) < b.len() by {
            lemma_cursor_spells_boundary(s, b, j);
            if cursor_at(s, b, j) == b.len() {
                assert(b.take(b.len() as int) =~= b);
                assert(occurs_at(s, b, (j - b.len()) as nat));
            }
        }
        lemma_cursor_state(s, b, p);
        assert(b.subrange(0, b.len() as int) =~= b);
        lemma_match_here(s, b, p, 0);
    }
}

/// With no boundary anywhere in the stream, the scan forwards the whole stream, cut at
/// the cap.
pub proof fn lemma_no_boundary(s: Seq<u8>, b: Seq<u8>, max_len: nat)
    requires
        forall|q: nat| !#[trigger] occurs_at(s, b, q),
    ensures
        boundary_start(s, b) == None::<nat>,
        content_len(s, b) == s.len(),
        extracted(s, b, max_len) == if s.len() <= max_len {
            s
        } else {
            s.take(max_len as int)
        },
{
    assert(s.subrange(0, 0) =~= b.take(0));
    lemma_match_is_occurrence(s, b, 0, 0);
    assert(s.take(s.len() as int) =~= s);
}

/// A cap that comes before the first boundary in the stream cuts the content exactly
/// at the cap.
pub proof fn lemma_cap_before_boundary(s: Seq<u8>, b: Seq<u8>, p: nat, max_len: nat)
    requires
        occurs_at(s, b, p),
        forall|q: nat| #[trigger] occurs_at(s, b, q) ==> p <= q,
        max_len < p,
    ensures
        extracted(s, b, max_len) == s.take(max_len as int),
        extracted(s, b, max_len).len() == max_len,
{
    assert(s.subrange(0, 0) =~= b.take(0));
    lemma_match_is_occurrence(s, b, 0, 0);
}

/// When the scan finds the boundary before the cap, what it forwards followed by the
/// boundary is a prefix of the stream.
pub proof fn lemma_content_then_boundary(s: Seq<u8>, b: Seq<u8>, max_len: nat)
    requires
        boundary_start(s, b) is Some,
        content_len(s, b) <= max_len,
    ensures
        content_len(s, b) + b.len() <= s.len(),
        extracted(s, b, max_len) + b == s.take((content_len(s, b) + b.len()) as int),
{
    assert(s.subrange(0, 0) =~= b.take(0));
    lemma_match_is_occurrence(s, b, 0, 0);
    let d = content_len(s, b) as int;
    assert(s.take(d) + s.subrange(d, d + b.len()) =~= s.take(d + b.len()));
}

} // verus!
