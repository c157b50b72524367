//! Shortening an address by dropping comma-delimited clauses.
use regex::Regex;
use vstd::prelude::*;

verus! {

/// No comma stands in `s` at a position in `lo..hi`.
pub open spec fn comma_free(s: Seq<char>, lo: int, hi: int) -> bool {
    forall|k: int| lo <= k < hi ==> s[k] != ','
}

/// `i` and `j` are the positions of the first and of the second comma of `s`.
pub open spec fn first_two_commas(s: Seq<char>, i: int, j: int) -> bool {
    &&& 0 <= i < j < s.len()
    &&& s[i] == ','
    &&& s[j] == ','
    &&& comma_free(s, 0, i)
    &&& comma_free(s, i + 1, j)
}

/// `s` has a second clause, one that a comma closes after the first clause.
pub open spec fn has_second_clause(s: Seq<char>) -> bool {
    exists|i: int, j: int| first_two_commas(s, i, j)
}

/// `s` with its second clause and the comma that closes it removed: the
/// first clause and its comma, then everything after the second comma.
/// A string with fewer than two commas stays as it is.
pub open spec fn without_second_clause(s: Seq<char>) -> Seq<char> {
    if has_second_clause(s) {
        let (i, j) = choose|i: int, j: int| first_two_commas(s, i, j);
        s.subrange(0, i + 1) + s.subrange(j + 1, s.len() as int)
    } else {
        s
    }
}

/// `i` is the position of the first comma of `s`.
pub open spec fn first_comma(s: Seq<char>, i: int) -> bool {
    &&& 0 <= i < s.len()
    &&& s[i] == ','
    &&& comma_free(s, 0, i)
}

/// `s` holds a comma.
pub open spec fn has_comma(s: Seq<char>) -> bool {
    exists|i: int| first_comma(s, i)
}

/// One shortening step: drop the second clause where there is one; where
/// the only comma closes the first clause, keep the first clause alone,
/// without its comma; a string without a comma stays as it is.
pub open spec fn shortened(s: Seq<char>) -> Seq<char> {
    if has_second_clause(s) {
        without_second_clause(s)
    } else if has_comma(s) {
        s.subrange(0, choose|i: int| first_comma(s, i))
    } else {
        s
    }
}

/// `s` shortened one step at a time while it is longer than `w` characters
/// and holds a comma.
pub open spec fn truncated(s: Seq<char>, w: nat) -> Seq<char>
    decreases s.len(),
    via truncated_decreases
{
    if s.len() > w && has_comma(s) {
        truncated(shortened(s), w)
    } else {
        s
    }
}

#[via_fn]
proof fn truncated_decreases(s: Seq<char>, w: nat) {
    if s.len() > w && has_comma(s) {
        lemma_shortened_shorter(s);
    }
}

/// A shortening step on a string with a comma removes at least that comma.
pub proof fn lemma_shortened_shorter(s: Seq<char>)
    requires
        has_comma(s),
    ensures
        shortened(s).len() < s.len(),
{
    if has_second_clause(s) {
        lemma_without_second_clause_shorter(s);
    } else {
        let i = choose|i: int| first_comma(s, i);
        assert(first_comma(s, i));
    }
}

/// Dropping a second clause removes at least its closing comma.
pub proof fn lemma_without_second_clause_shorter(s: Seq<char>)
    requires
        has_second_clause(s),
    ensures
        without_second_clause(s).len() < s.len(),
{
    let (i, j) = choose|i: int, j: int| first_two_commas(s, i, j);
    assert(first_two_commas(s, i, j));
}

/// Relies on `regex::Regex::new`, which compiles the pattern below without
/// error, and on `Regex::replace`, which replaces the first match with the
/// replacement after expanding `$1` and `$2` to the two capture groups. The
/// pattern matches from the start of the haystack through its second comma,
/// capturing the first clause with its comma and then what follows the
/// second comma up to the end of that line; the text after the match stays.
#[verifier::external_body]
fn replace_first_match(pattern: &str, haystack: &str, replacement: &str) -> (r: String)
    requires
        pattern@ == "^((?:[^,]*,){1})[^,]*,(.*)"@,
        replacement@ == "$1$2"@,
    ensures
        r@ == without_second_clause(haystack@),
{
    Regex::new(pattern).unwrap().replace(haystack, replacement).into_owned()
}

/// The position of the first comma of `s`, if it holds one.
fn find_first_comma(s: &str) -> (r: Option<usize>)
    ensures
        match r {
            Some(i) => first_comma(s@, i as int),
            None => comma_free(s@, 0, s@.len() as int),
        },
{
    let n = s.unicode_len();
    let mut i: usize = 0;
    while i < n
        invariant
            n == s@.len(),
            i <= n,
            comma_free(s@, 0, i as int),
        decreases n - i,
    {
        if s.get_char(i) == ',' {
            return Some(i);
        }
        i += 1;
    }
    None
}

/// Shortens `address` towards `max_width` characters, one step at a time:
/// the clause after the first comma is dropped together with its closing
/// comma, and once a single comma is left the address is cut before it.
/// It stops once the address fits or holds no comma, so the result may
/// still be longer than `max_width`.
pub fn trunc_address(address: String, max_width: usize) -> (r: String)
    ensures
        r@ == truncated(address@, max_width as nat),
    decreases address@.len(),
{
    let address_len = address.as_str().unicode_len();
    if address_len > max_width {
        let shorter = replace_first_match("^((?:[^,]*,){1})[^,]*,(.*)", address.as_str(), "$1$2");
        if shorter.as_str().unicode_len() < address_len {
            proof {
                if !has_second_clause(address@) {
                    assert(shorter@ == address@);
                }
                assert(has_comma(address@)) by {
                    let (i, j) = choose|i: int, j: int| first_two_commas(address@, i, j);
                    assert(first_comma(address@, i));
                }
            }
            return trunc_address(shorter, max_width);
        }
        proof {
            if has_second_clause(address@) {
                lemma_without_second_clause_shorter(address@);
            }
        }
        match find_first_comma(address.as_str()) {
            Some(i) => {
                let head = String::from_str(address.as_str().substring_char(0, i));
                proof {
                    assert(has_comma(address@));
                    let k = choose|k: int| first_comma(address@, k);
                    assert(k == i) by {
                        if k < i {
                            assert(address@[k] != ',');
                        } else if k > i {
                            assert(address@[i as int] != ',');
                        }
                    }
                    lemma_shortened_shorter(address@);
                }
                return trunc_address(head, max_width);
            },
            None => {
                proof {
                    if has_comma(address@) {
                        let k = choose|k: int| first_comma(address@, k);
                        assert(address@[k] != ',');
                    }
                }
            },
        }
    }
    address
}

/// An address that already fits within the width is left unchanged.
pub proof fn lemma_truncated_within_width(s: Seq<char>, w: nat)
    requires
        s.len() <= w,
    ensures
        truncated(s, w) == s,
{
}

/// An address without a comma cannot be shortened: it is left unchanged
/// even when it is longer than the width.
pub proof fn lemma_truncated_without_comma(s: Seq<char>, w: nat)
    requires
        s.len() > w,
        comma_free(s, 0, s.len() as int),
    ensures
        truncated(s, w) == s,
{
    if has_comma(s) {
        let k = choose|k: int| first_comma(s, k);
        assert(s[k] != ',');
    }
}

/// Truncation ends with an address that fits within the width or that
/// holds no comma left to cut at, and it never lengthens the address.
pub proof fn lemma_truncated_fits_or_comma_free(s: Seq<char>, w: nat)
    ensures
        truncated(s, w).len() <= w || !has_comma(truncated(s, w)),
        truncated(s, w).len() <= s.len(),
    decreases s.len(),
{
    if s.len() > w && has_comma(s) {
        lemma_shortened_shorter(s);
        lemma_truncated_fits_or_comma_free(shortened(s), w);
    }
}

/// Over the width, an address whose only comma closes the first clause is
/// cut to that first clause, without the comma.
pub proof fn lemma_truncated_single_comma(s: Seq<char>, w: nat, i: int)
    requires
        s.len() > w,
        first_comma(s, i),
        comma_free(s, i + 1, s.len() as int),
    ensures
        truncated(s, w) == s.subrange(0, i),
{
    if has_second_clause(s) {
        let (a, b) = choose|a: int, b: int| first_two_commas(s, a, b);
        if a < i {
            assert(s[a] != ',');
        } else if a > i {
            assert(s[a] != ',');
        } else {
            assert(s[b] != ',');
        }
    }
    let k = choose|k: int| first_comma(s, k);
    assert(k == i) by {
        if k < i {
            assert(s[k] != ',');
        } else if k > i {
            assert(s[i] != ',');
        }
    }
    let t = s.subrange(0, i);
    assert(shortened(s) == t);
    if has_comma(t) {
        let m = choose|m: int| first_comma(t, m);
        assert(s[m] != ',');
    }
    assert(first_comma(s, i));
    assert(truncated(t, w) == t);
    assert(truncated(s, w) == truncated(t, w));
}

} // verus!
