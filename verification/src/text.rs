use vstd::prelude::*;

verus! {

use vstd::string::StrSliceExecFns;

/// The needle occurs in the haystack at offset `k`.
pub open spec fn has_substr_at(h: Seq<char>, n: Seq<char>, k: int) -> bool {
    0 <= k && k + n.len() <= h.len() && h.subrange(k, k + n.len()) == n
}

/// The needle occurs somewhere in the haystack.
pub open spec fn has_substr(h: Seq<char>, n: Seq<char>) -> bool {
    exists|k: int| has_substr_at(h, n, k)
}

/// Whether the needle's characters stand at offset `k` of the haystack.
fn match_at(h: &str, n: &str, k: usize, hl: usize, nl: usize) -> (r: bool)
    requires
        hl == h@.len(),
        nl == n@.len(),
        k + nl <= hl,
    ensures
        r == has_substr_at(h@, n@, k as int),
{
    let mut j: usize = 0;
    while j < nl
        invariant
            j <= nl,
            hl == h@.len(),
            nl == n@.len(),
            k + nl <= hl,
            forall|t: int| 0 <= t < j ==> h@[k + t] == n@[t],
        decreases nl - j,
    {
        if h.get_char(k + j) != n.get_char(j) {
            proof {
                let sub = h@.subrange(k as int, k as int + n@.len() as int);
                assert(sub[j as int] == h@[k + j]);
            }
            return false;
        }
        j = j + 1;
    }
    proof {
        assert(h@.subrange(k as int, k as int + n@.len() as int) =~= n@);
    }
    true
}

/// Substring search: whether the needle's character sequence occurs
/// anywhere in the haystack.
pub fn contains_substr(h: &str, n: &str) -> (r: bool)
    ensures
        r == has_substr(h@, n@),
{
    let hl = h.unicode_len();
    let nl = n.unicode_len();
    if nl > hl {
        proof {
            assert forall|k: int| !has_substr_at(h@, n@, k) by {}
        }
        return false;
    }
    if nl == 0 {
        proof {
            assert(h@.subrange(0, 0) =~= n@);
            assert(has_substr_at(h@, n@, 0));
        }
        return true;
    }
    let mut k: usize = 0;
    while k <= hl - nl
        invariant
            1 <= nl <= hl,
            hl == h@.len(),
            nl == n@.len(),
            k <= hl - nl + 1,
            forall|t: int| 0 <= t < k ==> !has_substr_at(h@, n@, t),
        decreases hl - nl + 1 - k,
    {
        if match_at(h, n, k, hl, nl) {
            proof {
                assert(has_substr_at(h@, n@, k as int));
            }
            return true;
        }
        k = k + 1;
    }
    proof {
        assert forall|t: int| !has_substr_at(h@, n@, t) by {
            if 0 <= t && t + n@.len() <= h@.len() {
                assert(t < k);
            }
        }
    }
    false
}

/// What `str::to_uppercase` maps a character sequence to: a function of
/// the characters alone.
pub uninterp spec fn upper_of(s: Seq<char>) -> Seq<char>;

/// Relies on `str::to_uppercase` for the Unicode uppercase mapping of a
/// symbol name.
#[verifier::external_body]
pub fn to_upper(s: &str) -> (r: String)
    ensures
        r@ == upper_of(s@),
{
    s.to_uppercase()
}

/// What `str::to_lowercase` maps a character sequence to: a function of
/// the characters alone.
pub uninterp spec fn lower_of(s: Seq<char>) -> Seq<char>;

/// Relies on `str::to_lowercase` for the Unicode lowercase mapping of a
/// symbol name.
#[verifier::external_body]
pub fn to_lower(s: &str) -> (r: String)
    ensures
        r@ == lower_of(s@),
{
    s.to_lowercase()
}

} // verus!
