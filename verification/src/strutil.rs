use vstd::prelude::*;
use vstd::std_specs::iter::IteratorSpec;
use vstd::string::StringSliceAdditionalSpecFns;
use vstd::utf8::*;

verus! {

broadcast use vstd::string::group_string_axioms;

/// Appends one character to a string.
#[verifier::external_body]
pub fn push_char(s: &mut String, c: char)
    ensures
        final(s)@ == old(s)@.push(c),
{
    s.push(c);
}

/// The characters of a string slice, in order.
pub fn str_chars(s: &str) -> (out: Vec<char>)
    ensures
        out@ == s@,
{
    let mut out: Vec<char> = Vec::new();
    let mut it = s.chars();
    let ghost all = s@;
    loop
        invariant
            it.obeys_prophetic_iter_laws(),
            it.decrease() is Some,
            all == s@,
            out@ + it.remaining() == all,
        ensures
            out@ == all,
        decreases it.decrease()->0,
    {
        let c = it.next();
        match c {
            Some(ch) => {
                out.push(ch);
            },
            None => {
                break;
            },
        }
    }
    out
}


/// A byte position at which a token may begin or end: the end of the text,
/// or a byte that starts a character.
pub open spec fn at_char_start(b: Seq<u8>, p: int) -> bool {
    0 <= p <= b.len() && (p == b.len() || !is_continuation_byte(b[p]))
}

/// In valid UTF-8, every position that does not hold a continuation byte
/// is a character boundary.
pub proof fn lemma_char_start_is_boundary(b: Seq<u8>, p: int)
    requires
        valid_utf8(b),
        at_char_start(b, p),
    ensures
        is_char_boundary(b, p),
    decreases b.len(),
{
    if p == 0 {
    } else {
        let l = length_of_first_scalar(b);
        let rest = pop_first_scalar(b);
        assert(1 <= l <= 4);
        assert(l <= b.len());
        if p < l {
            assert(is_continuation_byte(b[p]));
            assert(false);
        }
        assert(rest.len() == b.len() - l);
        assert(p - l == b.len() - l ==> p == b.len());
        assert(p - l < rest.len() ==> rest[p - l] == b[p]);
        lemma_char_start_is_boundary(rest, p - l);
    }
}

/// The bytes of a string slice are valid UTF-8.
pub proof fn lemma_str_bytes_valid(s: &str)
    ensures
        valid_utf8(s.spec_bytes()),
{
    encode_utf8_valid_utf8(s@);
}

/// The part of `s` between two byte positions that both start characters.
pub fn slice_bytes<'a>(s: &'a str, start: usize, end: usize) -> (r: &'a str)
    requires
        start <= end <= s.spec_bytes().len(),
        at_char_start(s.spec_bytes(), start as int),
        at_char_start(s.spec_bytes(), end as int),
    ensures
        r.spec_bytes() == s.spec_bytes().subrange(start as int, end as int),
{
    let ghost b = s.spec_bytes();
    proof {
        lemma_str_bytes_valid(s);
        lemma_char_start_is_boundary(b, end as int);
    }
    let (head, _tail) = s.split_at(end);
    proof {
        let hb = head.spec_bytes();
        assert(hb == b.subrange(0, end as int));
        lemma_str_bytes_valid(head);
        assert(start < end ==> hb[start as int] == b[start as int]);
        assert(at_char_start(hb, start as int));
        lemma_char_start_is_boundary(hb, start as int);
    }
    let (_pre, mid) = head.split_at(start);
    proof {
        assert(mid.spec_bytes() =~= b.subrange(start as int, end as int));
    }
    mid
}

/// In valid UTF-8 the first byte is never a continuation byte.
pub proof fn lemma_first_not_continuation(b: Seq<u8>)
    requires
        valid_utf8(b),
        b.len() > 0,
    ensures
        !is_continuation_byte(b[0]),
{
}

/// In valid UTF-8, the position right after an ASCII byte starts a character.
pub proof fn lemma_after_ascii(b: Seq<u8>, i: int)
    requires
        valid_utf8(b),
        0 <= i < b.len(),
        b[i] < 0x80,
    ensures
        at_char_start(b, i + 1),
    decreases b.len(),
{
    let l = length_of_first_scalar(b);
    let rest = pop_first_scalar(b);
    assert(rest.len() == b.len() - l);
    if i < l {
        if i > 0 {
            assert(is_continuation_byte(b[i]));
        }
        assert(l == 1);
        if rest.len() > 0 {
            lemma_first_not_continuation(rest);
            assert(rest[0] == b[1]);
        }
    } else {
        lemma_after_ascii(rest, i - l);
        assert(i + 1 - l < rest.len() ==> rest[i + 1 - l] == b[i + 1]);
    }
}

/// Byte positions where the lines of a text with bytes `b` start: 0, and
/// the position after each newline.
pub open spec fn line_starts_of(b: Seq<u8>) -> Seq<usize>
    decreases b.len(),
{
    if b.len() == 0 {
        seq![0usize]
    } else if b.last() == 10 {
        line_starts_of(b.drop_last()).push(b.len() as usize)
    } else {
        line_starts_of(b.drop_last())
    }
}

/// The position just past the character that starts at `p`.
pub open spec fn next_char(b: Seq<u8>, p: int) -> int
    decreases b.len() - p,
{
    if p + 1 >= b.len() || !is_continuation_byte(b[p + 1]) {
        p + 1
    } else {
        next_char(b, p + 1)
    }
}

/// The position `k` characters after `p`, or the end of the text where it
/// has fewer.
pub open spec fn chars_ahead(b: Seq<u8>, p: int, k: nat) -> int
    decreases b.len() - p,
{
    if p >= b.len() {
        b.len() as int
    } else if k == 0 {
        p
    } else {
        proof {
            lemma_next_char(b, p);
        }
        chars_ahead(b, next_char(b, p), (k - 1) as nat)
    }
}

/// `next_char` moves forward, and not past the end.
pub proof fn lemma_next_char(b: Seq<u8>, p: int)
    requires
        p < b.len(),
    ensures
        p < next_char(b, p) <= b.len(),
    decreases b.len() - p,
{
    if p + 1 >= b.len() || !is_continuation_byte(b[p + 1]) {
    } else {
        lemma_next_char(b, p + 1);
    }
}

/// Byte positions where the lines of `input` start.
pub fn build_line_starts(input: &str) -> (r: Vec<usize>)
    ensures
        r@ == line_starts_of(input.spec_bytes()),
{
    let b = input.as_bytes();
    let mut out: Vec<usize> = Vec::new();
    out.push(0);
    let mut i: usize = 0;
    proof {
        assert(b@.take(0) =~= Seq::<u8>::empty());
        assert(out@ =~= seq![0usize]);
    }
    while i < b.len()
        invariant
            b@ == input.spec_bytes(),
            i <= b@.len(),
            out@ == line_starts_of(b@.take(i as int)),
        decreases b@.len() - i,
    {
        proof {
            assert(b@.take(i + 1).drop_last() =~= b@.take(i as int));
        }
        if b[i] == 10u8 {
            out.push(i + 1);
        }
        i = i + 1;
    }
    proof {
        assert(b@.take(b@.len() as int) =~= b@);
    }
    out
}

/// The position `k` characters after `p` in `b`, or the end where it has fewer.
pub fn walk_chars(b: &[u8], p: usize, k: usize) -> (r: usize)
    requires
        p <= b@.len(),
    ensures
        r == chars_ahead(b@, p as int, k as nat),
{
    let n = b.len();
    let mut q = p;
    let mut left = k;
    while q < n && left > 0
        invariant
            n == b@.len(),
            p <= q <= n,
            chars_ahead(b@, q as int, left as nat) == chars_ahead(b@, p as int, k as nat),
        decreases n - q,
    {
        proof {
            lemma_next_char(b@, q as int);
        }
        let mut e = q + 1;
        while e < n && b[e] >= 0x80u8 && b[e] <= 0xbfu8
            invariant
                n == b@.len(),
                q < e <= n,
                next_char(b@, e - 1) == next_char(b@, q as int),
            decreases n - e,
        {
            e = e + 1;
        }
        q = e;
        left = left - 1;
    }
    if q >= n {
        n
    } else {
        q
    }
}

} // verus!
