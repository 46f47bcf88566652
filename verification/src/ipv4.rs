//! A verified IPv4 dotted-quad validator.
//!
//! The reactor accepts only an IPv4 literal as its host.  A valid host is
//! four octets separated by dots, each one to three decimal digits with
//! value at most 255 and no leading zero (the only octet that may start
//! with `0` is `0` itself).

use vstd::prelude::*;

verus! {

/// ASCII code of `.`.
pub const DOT: u8 = 46;

/// ASCII code of `0`.
pub const DIGIT_ZERO: u8 = 48;

/// Whether `c` is an ASCII decimal digit.
pub open spec fn spec_is_digit(c: u8) -> bool {
    DIGIT_ZERO <= c <= 57
}

/// The decimal value of a digit string, most significant first.
pub open spec fn spec_decimal_val(s: Seq<u8>) -> int
    decreases s.len(),
{
    if s.len() == 0 {
        0
    } else {
        spec_decimal_val(s.drop_last()) * 10 + (s.last() - DIGIT_ZERO)
    }
}

/// Whether `s` is a well-formed octet: one to three digits, value at
/// most 255, and no leading zero unless it is exactly `0`.
pub open spec fn spec_octet_ok(s: Seq<u8>) -> bool {
    &&& 1 <= s.len() <= 3
    &&& (forall|i: int| 0 <= i < s.len() ==> spec_is_digit(#[trigger] s[i]))
    &&& spec_decimal_val(s) <= 255
    &&& (s.len() > 1 ==> s[0] != DIGIT_ZERO)
}

/// Split `s` at every dot.  Splitting the empty string gives one empty
/// part, so the parts always number one more than the dots.
pub open spec fn spec_split_dots(s: Seq<u8>) -> Seq<Seq<u8>>
    decreases s.len(),
{
    if s.len() == 0 {
        seq![Seq::<u8>::empty()]
    } else {
        let rest = spec_split_dots(s.drop_last());
        if s.last() == DOT {
            rest.push(Seq::<u8>::empty())
        } else {
            rest.update(rest.len() - 1, rest.last().push(s.last()))
        }
    }
}

/// Whether `s` is a dotted-quad IPv4 literal.
pub open spec fn spec_is_ipv4(s: Seq<u8>) -> bool {
    &&& spec_split_dots(s).len() == 4
    &&& (forall|i: int| 0 <= i < 4 ==> spec_octet_ok(#[trigger] spec_split_dots(s)[i]))
}

/// Splitting never yields zero parts.
proof fn lemma_split_nonempty(s: Seq<u8>)
    ensures
        spec_split_dots(s).len() >= 1,
    decreases s.len(),
{
    if s.len() > 0 {
        lemma_split_nonempty(s.drop_last());
    }
}

/// The unfinished last part of a split is never longer than the input.
proof fn lemma_split_last_len(s: Seq<u8>)
    ensures
        spec_split_dots(s).last().len() <= s.len(),
    decreases s.len(),
{
    if s.len() > 0 {
        lemma_split_nonempty(s.drop_last());
        lemma_split_last_len(s.drop_last());
    }
}

/// The unfinished last part of a split is a suffix of the input.
proof fn lemma_split_last_is_suffix(s: Seq<u8>, k: int)
    requires
        0 <= k < spec_split_dots(s).last().len(),
    ensures
        spec_split_dots(s).last().len() <= s.len(),
        spec_split_dots(s).last()[k] == s[s.len() - spec_split_dots(s).last().len() + k],
    decreases s.len(),
{
    lemma_split_last_len(s);
    if s.len() > 0 && s.last() != DOT {
        lemma_split_nonempty(s.drop_last());
        lemma_split_last_len(s.drop_last());
        let prev = spec_split_dots(s.drop_last()).last();
        if k < prev.len() {
            lemma_split_last_is_suffix(s.drop_last(), k);
        }
    }
}

/// Whether the bytes `b` spell a dotted-quad IPv4 literal.
pub fn is_ipv4_bytes(b: &[u8]) -> (r: bool)
    ensures
        r == spec_is_ipv4(b@),
{
    let n = b.len();
    let mut i: usize = 0;
    // How many parts are finished, whether each of those was a
    // well-formed octet, and the running shape of the unfinished last
    // part: its length, whether it is all digits, and its value while it
    // still can be an octet.
    let mut done_parts: usize = 0;
    let mut done_ok: bool = true;
    let mut cur_len: usize = 0;
    let mut cur_val: u32 = 0;
    let mut cur_digits: bool = true;
    while i < n
        invariant
            i <= n,
            n == b@.len(),
            done_parts <= i,
            cur_len <= i,
            cur_val <= 999,
            cur_len == 0 ==> cur_val == 0,
            cur_len <= 1 ==> cur_val <= 9,
            cur_len <= 2 ==> cur_val <= 99,
            spec_split_dots(b@.subrange(0, i as int)).len() == done_parts + 1,
            done_ok == (forall|k: int|
                0 <= k < done_parts ==> spec_octet_ok(
                    #[trigger] spec_split_dots(b@.subrange(0, i as int))[k],
                )),
            cur_len == spec_split_dots(b@.subrange(0, i as int)).last().len(),
            cur_digits == (forall|k: int|
                0 <= k < cur_len ==> spec_is_digit(
                    #[trigger] spec_split_dots(b@.subrange(0, i as int)).last()[k],
                )),
            cur_digits && cur_len <= 3 ==> cur_val == spec_decimal_val(
                spec_split_dots(b@.subrange(0, i as int)).last(),
            ),
        decreases n - i,
    {
        let ghost pre = b@.subrange(0, i as int);
        let ghost parts_pre = spec_split_dots(pre);
        let ghost part = parts_pre.last();
        let c = b[i];
        proof {
            assert(b@.subrange(0, i as int + 1).drop_last() =~= pre);
            assert(b@.subrange(0, i as int + 1).last() == c);
            lemma_split_nonempty(pre);
        }
        if c == DOT {
            proof {
                assert forall|k: int| 0 <= k < part.len() implies part[k] == pre[pre.len()
                    - part.len() + k] by {
                    lemma_split_last_is_suffix(pre, k);
                }
            }
            let finished_ok = cur_digits && cur_len >= 1 && cur_len <= 3 && cur_val <= 255 && (
            cur_len == 1 || b[i - cur_len] != DIGIT_ZERO);
            proof {
                if cur_len >= 1 {
                    assert(part[0] == pre[pre.len() - part.len()]);
                    assert(pre[pre.len() - part.len()] == b@[i - cur_len]);
                }
                assert(finished_ok == spec_octet_ok(part));
            }
            let ghost old_done: int = done_parts as int;
            let ghost old_done_ok = done_ok;
            done_ok = done_ok && finished_ok;
            done_parts = done_parts + 1;
            cur_len = 0;
            cur_val = 0;
            cur_digits = true;
            i = i + 1;
            proof {
                let parts_new = spec_split_dots(b@.subrange(0, i as int));
                assert(parts_new == parts_pre.push(Seq::<u8>::empty()));
                assert forall|k: int| 0 <= k < done_parts implies #[trigger] parts_new[k]
                    == parts_pre[k] by {}
                assert(parts_pre[old_done] == part);
                if done_ok {
                    assert forall|k: int| 0 <= k < done_parts implies spec_octet_ok(
                        #[trigger] parts_new[k],
                    ) by {
                        if k < old_done {
                            assert(spec_octet_ok(parts_pre[k]));
                        } else {
                            assert(parts_new[k] == part);
                        }
                    }
                } else {
                    if !old_done_ok {
                        let k0 = choose|k: int|
                            0 <= k < old_done && !spec_octet_ok(#[trigger] parts_pre[k]);
                        assert(!spec_octet_ok(parts_new[k0]));
                    } else {
                        assert(!spec_octet_ok(parts_new[old_done]));
                    }
                }
            }
        } else {
            let ghost old_len: int = cur_len as int;
            let ghost old_digits = cur_digits;
            let is_digit = DIGIT_ZERO <= c && c <= 57;
            if is_digit && cur_len < 3 {
                cur_val = cur_val * 10 + ((c - DIGIT_ZERO) as u32);
            } else {
                cur_val = 0;
            }
            cur_digits = cur_digits && is_digit;
            cur_len = cur_len + 1;
            i = i + 1;
            proof {
                let ghost newpart = part.push(c);
                assert(newpart.drop_last() =~= part);
                assert(spec_split_dots(b@.subrange(0, i as int)) == parts_pre.update(
                    parts_pre.len() - 1,
                    newpart,
                ));
                assert(spec_split_dots(b@.subrange(0, i as int)).last() == newpart);
                assert forall|k: int| 0 <= k < done_parts implies #[trigger] spec_split_dots(
                    b@.subrange(0, i as int),
                )[k] == parts_pre[k] by {}
                if !done_ok {
                    let k0 = choose|k: int|
                        0 <= k < done_parts && !spec_octet_ok(#[trigger] parts_pre[k]);
                    assert(spec_split_dots(b@.subrange(0, i as int))[k0] == parts_pre[k0]);
                    assert(!spec_octet_ok(spec_split_dots(b@.subrange(0, i as int))[k0]));
                }
                if !cur_digits {
                    if !old_digits {
                        let k0 = choose|k: int|
                            0 <= k < old_len && !spec_is_digit(#[trigger] part[k]);
                        assert(newpart[k0] == part[k0]);
                        assert(!spec_is_digit(newpart[k0]));
                    } else {
                        assert(newpart[old_len] == c);
                        assert(!spec_is_digit(newpart[old_len]));
                    }
                }
            }
        }
    }
    proof {
        assert(b@.subrange(0, n as int) =~= b@);
        lemma_split_nonempty(b@);
        let part = spec_split_dots(b@).last();
        assert forall|k: int| 0 <= k < part.len() implies part[k] == b@[b@.len() - part.len()
            + k] by {
            lemma_split_last_is_suffix(b@, k);
        }
    }
    let last_ok = cur_digits && cur_len >= 1 && cur_len <= 3 && cur_val <= 255 && (cur_len == 1
        || b[n - cur_len] != DIGIT_ZERO);
    let r = done_parts == 3 && done_ok && last_ok;
    proof {
        let parts = spec_split_dots(b@);
        assert(last_ok == spec_octet_ok(parts.last()));
        if r {
            assert forall|k: int| 0 <= k < 4 implies spec_octet_ok(#[trigger] parts[k]) by {
                if k == 3 {
                    assert(parts[k] == parts.last());
                }
            }
            assert(spec_is_ipv4(b@));
        } else {
            if done_parts != 3 {
                assert(parts.len() != 4);
            } else if !done_ok {
                let k0 = choose|k: int| 0 <= k < 3 && !spec_octet_ok(#[trigger] parts[k]);
                assert(!spec_octet_ok(parts[k0]));
                assert(!spec_is_ipv4(b@));
            } else {
                assert(parts[3] == parts.last());
                assert(!spec_is_ipv4(b@));
            }
        }
    }
    r
}

} // verus!
