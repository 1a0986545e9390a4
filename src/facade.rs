use vstd::prelude::*;

use crate::confidence::{format_millis, millis_text, FULL_CONFIDENCE};
use crate::ranking::ScoredLanguage;

verus! {

/// One ranked entry as text: `<TAG>:<confidence with three decimals>`.
pub open spec fn entry_text(e: ScoredLanguage) -> Seq<char> {
    e.language.tag_text() + ":"@ + millis_text(e.millis as nat)
}

/// The entries' texts joined by commas.
pub open spec fn joined(s: Seq<ScoredLanguage>) -> Seq<char>
    decreases s.len(),
{
    if s.len() == 0 {
        Seq::empty()
    } else if s.len() == 1 {
        entry_text(s[0])
    } else {
        joined(s.drop_last()) + ","@ + entry_text(s.last())
    }
}

/// The entries whose raw confidence reaches `threshold`, in their order.
pub open spec fn above_threshold(s: Seq<ScoredLanguage>, threshold: nat) -> Seq<ScoredLanguage>
    decreases s.len(),
{
    if s.len() == 0 {
        Seq::empty()
    } else if s.last().raw >= threshold {
        above_threshold(s.drop_last(), threshold).push(s.last())
    } else {
        above_threshold(s.drop_last(), threshold)
    }
}

/// How many entries a request for the top `n` takes.
pub open spec fn top_count(len: nat, n: int) -> nat {
    if n <= 0 {
        0
    } else if n >= len {
        len
    } else {
        n as nat
    }
}

/// The first `n` entries; none when `n <= 0`, all when `n` reaches the length.
pub open spec fn top_n(s: Seq<ScoredLanguage>, n: int) -> Seq<ScoredLanguage> {
    s.take(top_count(s.len(), n) as int)
}

/// Best guess: the first language's tag, `unknown` for an empty ranking.
pub open spec fn best_guess_text(ranked: Seq<ScoredLanguage>) -> Seq<char> {
    if ranked.len() == 0 {
        "unknown"@
    } else {
        ranked[0].language.tag_text()
    }
}

/// Best guess with its confidence, `unknown:0.000` for an empty ranking.
pub open spec fn best_with_confidence_text(ranked: Seq<ScoredLanguage>) -> Seq<char> {
    if ranked.len() == 0 {
        "unknown:0.000"@
    } else {
        entry_text(ranked[0])
    }
}

/// Every entry at or above the threshold, or `no_languages_above_threshold`.
pub open spec fn multiple_text(ranked: Seq<ScoredLanguage>, threshold: nat) -> Seq<char> {
    let kept = above_threshold(ranked, threshold);
    if kept.len() == 0 {
        "no_languages_above_threshold"@
    } else {
        joined(kept)
    }
}

/// The first `n` entries, or `no_languages_detected` when that is none.
pub open spec fn top_text(ranked: Seq<ScoredLanguage>, n: int) -> Seq<char> {
    let kept = top_n(ranked, n);
    if kept.len() == 0 {
        "no_languages_detected"@
    } else {
        joined(kept)
    }
}

/// Writes one entry as `<TAG>:<confidence>`.
pub fn entry_string(e: ScoredLanguage) -> (r: String)
    ensures
        r@ == entry_text(e),
{
    let mut s = e.language.tag();
    s.append(":");
    let m = format_millis(e.millis);
    s.append(m.as_str());
    s
}

/// Writes the entries comma-separated.
pub fn join_entries(entries: &Vec<ScoredLanguage>) -> (r: String)
    ensures
        r@ == joined(entries@),
{
    let mut s = String::new();
    let mut i: usize = 0;
    while i < entries.len()
        invariant
            i <= entries@.len(),
            s@ == joined(entries@.take(i as int)),
        decreases entries@.len() - i,
    {
        let e = entry_string(entries[i]);
        if i > 0 {
            s.append(",");
        }
        s.append(e.as_str());
        proof {
            let t = entries@.take(i + 1);
            assert(t.drop_last() =~= entries@.take(i as int));
            assert(t.last() == entries@[i as int]);
            if i == 0 {
                assert(entries@.take(0) =~= Seq::<ScoredLanguage>::empty());
            }
        }
        i = i + 1;
    }
    assert(entries@.take(i as int) =~= entries@);
    s
}

/// The entries whose raw confidence is at least `threshold` (a bit pattern, as in [`ScoredLanguage`]).
pub fn select_above_threshold(ranked: &Vec<ScoredLanguage>, threshold: u64) -> (r: Vec<
    ScoredLanguage,
>)
    ensures
        r@ == above_threshold(ranked@, threshold as nat),
{
    let mut out: Vec<ScoredLanguage> = Vec::new();
    let mut i: usize = 0;
    while i < ranked.len()
        invariant
            i <= ranked@.len(),
            out@ == above_threshold(ranked@.take(i as int), threshold as nat),
        decreases ranked@.len() - i,
    {
        let e = ranked[i];
        proof {
            let t = ranked@.take(i + 1);
            assert(t.drop_last() =~= ranked@.take(i as int));
            assert(t.last() == e);
        }
        if e.raw >= threshold {
            out.push(e);
        }
        i = i + 1;
    }
    assert(ranked@.take(i as int) =~= ranked@);
    out
}

/// The first `n` entries; none when `n <= 0`, all when `n` reaches the length.
pub fn select_top(ranked: &Vec<ScoredLanguage>, n: i32) -> (r: Vec<ScoredLanguage>)
    ensures
        r@ == top_n(ranked@, n as int),
{
    let count: usize = if n <= 0 {
        0
    } else if n as usize >= ranked.len() {
        ranked.len()
    } else {
        n as usize
    };
    let mut out: Vec<ScoredLanguage> = Vec::new();
    let mut i: usize = 0;
    while i < count
        invariant
            count == top_count(ranked@.len(), n as int),
            i <= count,
            out@ == ranked@.take(i as int),
        decreases count - i,
    {
        out.push(ranked[i]);
        assert(ranked@.take(i + 1) =~= ranked@.take(i as int).push(ranked@[i as int]));
        i = i + 1;
    }
    out
}

/// Best guess over a ranking.
pub fn best_guess(ranked: &Vec<ScoredLanguage>) -> (r: String)
    ensures
        r@ == best_guess_text(ranked@),
{
    if ranked.len() == 0 {
        String::from_str("unknown")
    } else {
        ranked[0].language.tag()
    }
}

/// Best guess with its confidence over a ranking.
pub fn best_with_confidence(ranked: &Vec<ScoredLanguage>) -> (r: String)
    ensures
        r@ == best_with_confidence_text(ranked@),
{
    if ranked.len() == 0 {
        String::from_str("unknown:0.000")
    } else {
        entry_string(ranked[0])
    }
}

/// Every entry of a ranking whose raw confidence reaches `threshold`, as text.
pub fn multiple_above(ranked: &Vec<ScoredLanguage>, threshold: u64) -> (r: String)
    ensures
        r@ == multiple_text(ranked@, threshold as nat),
{
    let kept = select_above_threshold(ranked, threshold);
    if kept.len() == 0 {
        String::from_str("no_languages_above_threshold")
    } else {
        join_entries(&kept)
    }
}

/// The first `n` entries of a ranking, as text.
pub fn top_languages(ranked: &Vec<ScoredLanguage>, n: i32) -> (r: String)
    ensures
        r@ == top_text(ranked@, n as int),
{
    let kept = select_top(ranked, n);
    if kept.len() == 0 {
        String::from_str("no_languages_detected")
    } else {
        join_entries(&kept)
    }
}

} // verus!
