//! Status keywords of marked sections (`<![CDATA[...]]>`) and how they combine.
use vstd::prelude::*;
use crate::data::sgml_whitespace;
use crate::text::chars_of;

verus! {

/// The resolved status of a marked section, from weakest to strongest.
#[derive(Clone, Copy, Debug, PartialEq, Eq, Structural)]
pub enum MarkedSectionStatus {
    /// The content is parsed as markup (`INCLUDE`, `TEMP`, or no keyword).
    Include,
    /// The content is replaceable character data (`RCDATA`).
    RcData,
    /// The content is character data (`CDATA`).
    CData,
    /// The content is skipped (`IGNORE`).
    Ignore,
}

/// The precedence of a status: the strongest keyword of a list wins.
pub open spec fn rank(s: MarkedSectionStatus) -> nat {
    match s {
        MarkedSectionStatus::Include => 0,
        MarkedSectionStatus::RcData => 1,
        MarkedSectionStatus::CData => 2,
        MarkedSectionStatus::Ignore => 3,
    }
}

/// ASCII upper case of `c`.
pub open spec fn upper(c: char) -> char {
    if 'a' <= c && c <= 'z' {
        ((c as u8) - 32) as char
    } else {
        c
    }
}

/// Whether `s` equals `w` (given in upper case) ignoring ASCII case.
pub open spec fn keyword_is(s: Seq<char>, w: Seq<char>) -> bool {
    s.len() == w.len() && forall|i: int| 0 <= i < s.len() ==> upper(#[trigger] s[i]) == w[i]
}

/// The status that one keyword names, ignoring ASCII case.
pub open spec fn keyword_status(s: Seq<char>) -> Option<MarkedSectionStatus> {
    if keyword_is(s, seq!['C', 'D', 'A', 'T', 'A']) {
        Some(MarkedSectionStatus::CData)
    } else if keyword_is(s, seq!['R', 'C', 'D', 'A', 'T', 'A']) {
        Some(MarkedSectionStatus::RcData)
    } else if keyword_is(s, seq!['I', 'G', 'N', 'O', 'R', 'E']) {
        Some(MarkedSectionStatus::Ignore)
    } else if keyword_is(s, seq!['I', 'N', 'C', 'L', 'U', 'D', 'E']) || keyword_is(
        s,
        seq!['T', 'E', 'M', 'P'],
    ) {
        Some(MarkedSectionStatus::Include)
    } else {
        None
    }
}

/// The stronger of two statuses.
pub open spec fn stronger(a: MarkedSectionStatus, b: MarkedSectionStatus) -> MarkedSectionStatus {
    if rank(a) >= rank(b) { a } else { b }
}

/// Index where the whitespace-free word starting at `k` ends.
pub open spec fn word_end(s: Seq<char>, k: int) -> int
    decreases s.len() - k,
{
    if 0 <= k < s.len() && !sgml_whitespace(s[k]) {
        word_end(s, k + 1)
    } else {
        k
    }
}

proof fn lemma_word_end(s: Seq<char>, k: int)
    requires
        0 <= k <= s.len(),
    ensures
        k <= word_end(s, k) <= s.len(),
    decreases s.len() - k,
{
    if k < s.len() && !sgml_whitespace(s[k]) {
        lemma_word_end(s, k + 1);
    }
}

/// The status of the keyword list `s` from index `k` on, combined with `acc`; `None` if a
/// word there is no keyword.
pub open spec fn keywords_from(s: Seq<char>, k: int, acc: MarkedSectionStatus) -> Option<
    MarkedSectionStatus,
>
    decreases s.len() - k,
{
    if k < 0 || k >= s.len() {
        Some(acc)
    } else if sgml_whitespace(s[k]) {
        keywords_from(s, k + 1, acc)
    } else {
        let e = word_end(s, k);
        if e <= k || e > s.len() {
            None
        } else {
            match keyword_status(s.subrange(k, e)) {
                Some(st) => keywords_from(s, e, stronger(acc, st)),
                None => None,
            }
        }
    }
}

fn upper_exec(c: char) -> (r: char)
    ensures
        r == upper(c),
{
    if 'a' <= c && c <= 'z' {
        ((c as u8) - 32) as char
    } else {
        c
    }
}

fn word_is(s: &Vec<char>, a: usize, b: usize, w: &[char]) -> (r: bool)
    requires
        a <= b <= s.len(),
    ensures
        r == keyword_is(s@.subrange(a as int, b as int), w@),
{
    if b - a != w.len() {
        return false;
    }
    let mut k: usize = 0;
    while k < w.len()
        invariant
            a <= b <= s.len(),
            b - a == w.len(),
            k <= w.len(),
            forall|i: int| 0 <= i < k ==> upper(#[trigger] s@.subrange(a as int, b as int)[i]) == w@[i],
        decreases w.len() - k,
    {
        if upper_exec(s[a + k]) != w[k] {
            assert(s@.subrange(a as int, b as int)[k as int] == s@[a + k]);
            return false;
        }
        k = k + 1;
    }
    true
}

fn status_of_word(s: &Vec<char>, a: usize, b: usize) -> (r: Option<MarkedSectionStatus>)
    requires
        a <= b <= s.len(),
    ensures
        r == keyword_status(s@.subrange(a as int, b as int)),
{
    if word_is(s, a, b, &['C', 'D', 'A', 'T', 'A']) {
        Some(MarkedSectionStatus::CData)
    } else if word_is(s, a, b, &['R', 'C', 'D', 'A', 'T', 'A']) {
        Some(MarkedSectionStatus::RcData)
    } else if word_is(s, a, b, &['I', 'G', 'N', 'O', 'R', 'E']) {
        Some(MarkedSectionStatus::Ignore)
    } else if word_is(s, a, b, &['I', 'N', 'C', 'L', 'U', 'D', 'E']) || word_is(
        s,
        a,
        b,
        &['T', 'E', 'M', 'P'],
    ) {
        Some(MarkedSectionStatus::Include)
    } else {
        None
    }
}

fn rank_exec(s: MarkedSectionStatus) -> (r: u8)
    ensures
        r == rank(s),
{
    match s {
        MarkedSectionStatus::Include => 0,
        MarkedSectionStatus::RcData => 1,
        MarkedSectionStatus::CData => 2,
        MarkedSectionStatus::Ignore => 3,
    }
}

impl MarkedSectionStatus {
    /// The status that the single keyword `s` names, ignoring ASCII case.
    pub fn from_keyword(s: &str) -> (r: Option<MarkedSectionStatus>)
        ensures
            r == keyword_status(s@),
    {
        let v = chars_of(s);
        proof {
            assert(v@.subrange(0, v@.len() as int) =~= v@);
        }
        status_of_word(&v, 0, v.len())
    }

    /// The status of a whitespace-separated list of keywords: the strongest of them, where
    /// `IGNORE` beats `CDATA`, which beats `RCDATA`, which beats `INCLUDE` and `TEMP`; an
    /// empty list includes. `None` if a word is no keyword.
    pub fn from_keywords(s: &str) -> (r: Option<MarkedSectionStatus>)
        ensures
            r == keywords_from(s@, 0, MarkedSectionStatus::Include),
    {
        let v = chars_of(s);
        let mut acc = MarkedSectionStatus::Include;
        let mut k: usize = 0;
        while k < v.len()
            invariant
                k <= v.len(),
                v@ == s@,
                keywords_from(s@, 0, MarkedSectionStatus::Include) == keywords_from(s@, k as int, acc),
            decreases v.len() - k,
        {
            if crate::data::is_sgml_whitespace(v[k]) {
                k = k + 1;
            } else {
                let mut e: usize = k;
                while e < v.len() && !crate::data::is_sgml_whitespace(v[e])
                    invariant
                        k <= e <= v.len(),
                        v@ == s@,
                        word_end(s@, k as int) == word_end(s@, e as int),
                    decreases v.len() - e,
                {
                    e = e + 1;
                }
                proof {
                    lemma_word_end(s@, e as int);
                }
                match status_of_word(&v, k, e) {
                    Some(st) => {
                        acc = if rank_exec(acc) >= rank_exec(st) { acc } else { st };
                        k = e;
                    },
                    None => {
                        return None;
                    },
                }
            }
        }
        Some(acc)
    }
}

} // verus!
