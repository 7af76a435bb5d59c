//! Extension-based filtering of input files. Only filenames whose
//! extension is exactly `jpg`, `jpeg` or `png` — case as given, no
//! normalization — are considered for the batch; everything else is
//! silently skipped.

use vstd::prelude::*;
use vstd::string::StrSliceExecFns;

verus! {

/// The extension sequences the batch accepts, compared exactly.
pub open spec fn allowed_ext(e: Seq<char>) -> bool {
    e == seq!['j', 'p', 'g'] || e == seq!['j', 'p', 'e', 'g'] || e == seq!['p', 'n', 'g']
}

/// `d` is the position of the last dot of `s`.
pub open spec fn is_last_dot(s: Seq<char>, d: int) -> bool {
    0 <= d < s.len() && s[d] == '.' && (forall|j: int| d < j < s.len() ==> s[j] != '.')
}

/// The name has an extension — characters after a last dot that is not
/// the leading character, as a hidden file's leading dot names no
/// extension — and that extension is one of the accepted three.
pub open spec fn allowed_name(s: Seq<char>) -> bool {
    exists|d: int|
        #[trigger] is_last_dot(s, d) && d > 0 && allowed_ext(
            s.subrange(d + 1, s.len() as int),
        )
}

/// A last dot is unique: any position satisfying `is_last_dot` equals it.
proof fn lemma_last_dot_unique(s: Seq<char>, d: int)
    requires
        0 <= d < s.len(),
        s[d] == '.',
        forall|j: int| d < j < s.len() ==> s[j] != '.',
    ensures
        forall|dd: int| #[trigger] is_last_dot(s, dd) ==> dd == d,
{
    assert forall|dd: int| #[trigger] is_last_dot(s, dd) implies dd == d by {
        if dd < d {
            assert(s[d] != '.');
        } else if dd > d {
            assert(s[dd] != '.');
        }
    }
}

/// Decides whether a filename takes part in the batch: true exactly when
/// its extension — the characters after its last dot, the dot not in
/// leading position — is `jpg`, `jpeg` or `png`, compared exactly.
pub fn allowed_filetype(filename: &str) -> (r: bool)
    ensures
        r == allowed_name(filename@),
{
    let ghost s = filename@;
    let len: usize = filename.unicode_len();
    let mut i: usize = len;
    while i > 0
        invariant
            i <= len,
            len == s.len(),
            s == filename@,
            forall|j: int| i <= j < len ==> s[j] != '.',
        decreases i,
    {
        let c: char = filename.get_char(i - 1);
        if c == '.' {
            let d: usize = i - 1;
            proof {
                lemma_last_dot_unique(s, d as int);
                assert(is_last_dot(s, d as int));
            }
            if d == 0 {
                proof {
                    assert forall|dd: int|
                        #[trigger] is_last_dot(s, dd) && dd > 0 implies !allowed_ext(
                        s.subrange(dd + 1, s.len() as int),
                    ) by {
                        assert(dd == 0);
                    }
                }
                return false;
            }
            let ghost sub = s.subrange(d as int + 1, s.len() as int);
            let elen: usize = len - i;
            proof {
                assert(sub.len() == elen);
            }
            let mut matched: bool = false;
            if elen == 3 {
                let c0: char = filename.get_char(i);
                let c1: char = filename.get_char(i + 1);
                let c2: char = filename.get_char(i + 2);
                proof {
                    assert(sub[0] == c0 && sub[1] == c1 && sub[2] == c2);
                }
                matched = (c0 == 'j' && c1 == 'p' && c2 == 'g') || (c0 == 'p' && c1 == 'n' && c2
                    == 'g');
                proof {
                    if matched {
                        if c0 == 'j' {
                            assert(sub =~= seq!['j', 'p', 'g']);
                        } else {
                            assert(sub =~= seq!['p', 'n', 'g']);
                        }
                    } else {
                        assert(!allowed_ext(sub));
                    }
                }
            } else if elen == 4 {
                let c0: char = filename.get_char(i);
                let c1: char = filename.get_char(i + 1);
                let c2: char = filename.get_char(i + 2);
                let c3: char = filename.get_char(i + 3);
                proof {
                    assert(sub[0] == c0 && sub[1] == c1 && sub[2] == c2 && sub[3] == c3);
                }
                matched = c0 == 'j' && c1 == 'p' && c2 == 'e' && c3 == 'g';
                proof {
                    if matched {
                        assert(sub =~= seq!['j', 'p', 'e', 'g']);
                    } else {
                        assert(!allowed_ext(sub));
                    }
                }
            } else {
                proof {
                    assert(!allowed_ext(sub));
                }
            }
            proof {
                if matched {
                    assert(allowed_name(s));
                } else {
                    assert forall|dd: int|
                        #[trigger] is_last_dot(s, dd) && dd > 0 implies !allowed_ext(
                        s.subrange(dd + 1, s.len() as int),
                    ) by {
                        assert(dd == d);
                    }
                }
            }
            return matched;
        }
        i = i - 1;
    }
    proof {
        assert forall|dd: int| #[trigger] is_last_dot(s, dd) implies false by {
            assert(s[dd] != '.');
        }
    }
    false
}

} // verus!
