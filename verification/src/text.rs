//! Character-level building blocks: prefix tests, substring search, runs of a
//! character class, the order of map keys, and assembling text from pieces.
//!
//! Every contract speaks of a string through its view, the sequence of
//! its characters.
use vstd::prelude::*;
use vstd::string::*;

verus! {

/// The characters of `s`, in order, as a vector that can be indexed in
/// constant time.
pub fn chars_of(s: &str) -> (v: Vec<char>)
    ensures
        v@ == s@,
{
    let mut v: Vec<char> = Vec::new();
    for c in it: s.chars()
        invariant
            v@ == it.seq().take(it.index() as int),
    {
        v.push(c);
    }
    v
}

/// Whether two strings hold the same text.
pub fn same_text(a: &str, b: &str) -> (r: bool)
    ensures
        r == (a@ == b@),
{
    let x = chars_of(a);
    let y = chars_of(b);
    if x.len() != y.len() {
        return false;
    }
    let mut i: usize = 0;
    while i < x.len()
        invariant
            x@ == a@,
            y@ == b@,
            x.len() == y.len(),
            i <= x.len(),
            forall|j: int| 0 <= j < i ==> x@[j] == y@[j],
        decreases x.len() - i,
    {
        if x[i] != y[i] {
            return false;
        }
        i += 1;
    }
    assert(x@ =~= y@);
    true
}

/// What is left of `s` behind the non-empty lead `lead`, if `s` begins with it.
pub open spec fn after(s: Seq<char>, lead: Seq<char>) -> Option<Seq<char>> {
    if lead.len() > 0 && lead.is_prefix_of(s) {
        Some(s.skip(lead.len() as int))
    } else {
        None
    }
}

/// Whether `lead` is non-empty and `cs` continues with it at `at`.
pub fn continues_with(cs: &Vec<char>, at: usize, lead: &str) -> (r: bool)
    requires
        at <= cs.len(),
    ensures
        r == (after(cs@.skip(at as int), lead@) is Some),
        r ==> at + lead@.len() <= cs.len()
            && after(cs@.skip(at as int), lead@) == Some(cs@.skip(at + lead@.len())),
{
    let n = lead.unicode_len();
    if n == 0 || n > cs.len() - at {
        return false;
    }
    let mut i: usize = 0;
    while i < n
        invariant
            at + n <= cs.len(),
            n == lead@.len(),
            i <= n,
            forall|j: int| 0 <= j < i ==> cs@[at + j] == lead@[j],
        decreases n - i,
    {
        if cs[at + i] != lead.get_char(i) {
            assert(cs@.skip(at as int)[i as int] != lead@[i as int]);
            return false;
        }
        i += 1;
    }
    assert(lead@ =~= cs@.skip(at as int).subrange(0, n as int));
    assert(cs@.skip(at as int).skip(n as int) =~= cs@.skip(at + n));
    true
}

/// The least position at or behind `from` where `pat` occurs in `s`.
pub open spec fn first_occurrence(s: Seq<char>, pat: Seq<char>, from: int) -> Option<int>
    decreases s.len() - from,
{
    if from < 0 || from >= s.len() {
        None
    } else if after(s.skip(from), pat) is Some {
        Some(from)
    } else {
        first_occurrence(s, pat, from + 1)
    }
}

/// Searches `cs` from `from` on for the first occurrence of `pat`.
pub fn find(cs: &Vec<char>, pat: &str, from: usize) -> (r: Option<usize>)
    ensures
        match r {
            Some(i) => first_occurrence(cs@, pat@, from as int) == Some(i as int) && from <= i
                < cs.len() && after(cs@.skip(i as int), pat@) is Some,
            None => first_occurrence(cs@, pat@, from as int) is None,
        },
{
    let mut i: usize = from;
    while i < cs.len()
        invariant
            from <= i,
            first_occurrence(cs@, pat@, from as int) == first_occurrence(cs@, pat@, i as int),
        decreases cs.len() - i,
    {
        if continues_with(cs, i, pat) {
            return Some(i);
        }
        i += 1;
    }
    None
}

/// An ASCII letter.
pub open spec fn is_letter(c: char) -> bool {
    ('a' <= c && c <= 'z') || ('A' <= c && c <= 'Z')
}

/// Length of the longest prefix of `s` made of ASCII letters.
pub open spec fn letters(s: Seq<char>) -> nat
    decreases s.len(),
{
    if s.len() > 0 && is_letter(s[0]) {
        1 + letters(s.skip(1))
    } else {
        0
    }
}

/// Length of the longest prefix of `s` that holds none of `stops`.
pub open spec fn run_outside(s: Seq<char>, stops: Seq<char>) -> nat
    decreases s.len(),
{
    if s.len() > 0 && !stops.contains(s[0]) {
        1 + run_outside(s.skip(1), stops)
    } else {
        0
    }
}

/// A run that starts with `k` letters and then meets a non-letter, or the
/// end, has exactly length `k`.
pub proof fn lemma_letters_exact(s: Seq<char>, k: int)
    requires
        0 <= k <= s.len(),
        forall|j: int| 0 <= j < k ==> is_letter(#[trigger] s[j]),
        k < s.len() ==> !is_letter(s[k]),
    ensures
        letters(s) == k,
    decreases k,
{
    if k > 0 {
        lemma_letters_exact(s.skip(1), k - 1);
    }
}

/// Likewise for a run that avoids `stops`.
pub proof fn lemma_run_outside_exact(s: Seq<char>, stops: Seq<char>, k: int)
    requires
        0 <= k <= s.len(),
        forall|j: int| 0 <= j < k ==> !stops.contains(#[trigger] s[j]),
        k < s.len() ==> stops.contains(s[k]),
    ensures
        run_outside(s, stops) == k,
    decreases k,
{
    if k > 0 {
        lemma_run_outside_exact(s.skip(1), stops, k - 1);
    }
}

/// Steps over the ASCII letters that start at `from`; returns where they end.
pub fn skip_letters(cs: &Vec<char>, from: usize) -> (end: usize)
    requires
        from <= cs.len(),
    ensures
        from <= end <= cs.len(),
        end - from == letters(cs@.skip(from as int)),
{
    let mut i: usize = from;
    while i < cs.len() && ((cs[i] >= 'a' && cs[i] <= 'z') || (cs[i] >= 'A' && cs[i] <= 'Z'))
        invariant
            from <= i <= cs.len(),
            forall|j: int| from <= j < i ==> is_letter(cs@[j]),
        decreases cs.len() - i,
    {
        i += 1;
    }
    proof {
        lemma_letters_exact(cs@.skip(from as int), i - from);
    }
    i
}

/// Whether `c` is one of `stops`.
pub fn is_one_of(c: char, stops: &Vec<char>) -> (r: bool)
    ensures
        r == stops@.contains(c),
{
    let mut k: usize = 0;
    while k < stops.len()
        invariant
            k <= stops.len(),
            forall|j: int| 0 <= j < k ==> stops@[j] != c,
        decreases stops.len() - k,
    {
        if stops[k] == c {
            return true;
        }
        k += 1;
    }
    false
}

/// Steps over the characters from `from` on that are none of `stops`;
/// returns where they end.
pub fn skip_outside(cs: &Vec<char>, from: usize, stops: &Vec<char>) -> (end: usize)
    requires
        from <= cs.len(),
    ensures
        from <= end <= cs.len(),
        end - from == run_outside(cs@.skip(from as int), stops@),
{
    let mut i: usize = from;
    while i < cs.len() && !is_one_of(cs[i], stops)
        invariant
            from <= i <= cs.len(),
            forall|j: int| from <= j < i ==> !stops@.contains(cs@[j]),
        decreases cs.len() - i,
    {
        i += 1;
    }
    proof {
        lemma_run_outside_exact(cs@.skip(from as int), stops@, i - from);
    }
    i
}

/// The views of a sequence of strings.
pub open spec fn texts(v: Seq<String>) -> Seq<Seq<char>> {
    Seq::new(v.len(), |i: int| v[i]@)
}

/// The pieces of `s` between the occurrences of `sep`: one more than there
/// are occurrences, so at least one, and empty where two occurrences meet or
/// one stands at an end.
pub open spec fn split_on(s: Seq<char>, sep: char) -> Seq<Seq<char>>
    decreases s.len(),
{
    let n = run_outside(s, seq![sep]);
    if n >= s.len() {
        seq![s]
    } else {
        seq![s.take(n as int)] + split_on(s.skip(n as int + 1), sep)
    }
}

/// A text is cut into at least one piece.
pub proof fn lemma_split_on_is_not_empty(s: Seq<char>, sep: char)
    ensures
        split_on(s, sep).len() > 0,
{
}

/// Cuts `s` at every `sep`.
pub fn split(s: &str, sep: char) -> (pieces: Vec<String>)
    ensures
        texts(pieces@) == split_on(s@, sep),
        pieces.len() > 0,
{
    let cs = chars_of(s);
    let len = cs.len();
    let mut stops: Vec<char> = Vec::new();
    stops.push(sep);
    assert(stops@ =~= seq![sep]);
    let mut pieces: Vec<String> = Vec::new();
    let mut start: usize = 0;
    assert(cs@.skip(0) =~= s@);
    loop
        invariant_except_break
            start <= len,
            len == cs.len(),
            cs@ == s@,
            stops@ == seq![sep],
            texts(pieces@) + split_on(cs@.skip(start as int), sep) == split_on(s@, sep),
        ensures
            texts(pieces@) == split_on(s@, sep),
            pieces.len() > 0,
        decreases len - start,
    {
        let end = skip_outside(&cs, start, &stops);
        let ghost before = pieces@;
        let ghost rest = cs@.skip(start as int);
        pieces.push(s.substring_char(start, end).to_owned());
        proof {
            assert(rest.take(end - start) =~= cs@.subrange(start as int, end as int));
            assert(texts(pieces@) =~= texts(before) + seq![rest.take(end - start)]);
        }
        if end >= len {
            proof {
                assert(rest.take(end - start) =~= rest);
            }
            break ;
        }
        proof {
            assert(rest.skip(end - start + 1) =~= cs@.skip(end + 1));
            assert(texts(pieces@) + split_on(cs@.skip(end + 1), sep) =~= texts(before) + split_on(
                rest,
                sep,
            ));
        }
        start = end + 1;
    }
    pieces
}

/// The order of keys: `a` comes before `b` if, at the first position where
/// they differ, `a` has ended or has the smaller character.
pub open spec fn precedes(a: Seq<char>, b: Seq<char>) -> bool
    decreases a.len(),
{
    if b.len() == 0 {
        false
    } else if a.len() == 0 {
        true
    } else if a[0] != b[0] {
        a[0] < b[0]
    } else {
        precedes(a.skip(1), b.skip(1))
    }
}

/// Two texts that agree on their first `k` characters are ordered as what
/// follows those.
pub proof fn lemma_precedes_behind_common_prefix(a: Seq<char>, b: Seq<char>, k: int)
    requires
        0 <= k <= a.len(),
        k <= b.len(),
        forall|j: int| 0 <= j < k ==> a[j] == b[j],
    ensures
        precedes(a, b) == precedes(a.skip(k), b.skip(k)),
    decreases k,
{
    if k > 0 {
        lemma_precedes_behind_common_prefix(a.skip(1), b.skip(1), k - 1);
        assert(a.skip(1).skip(k - 1) =~= a.skip(k));
        assert(b.skip(1).skip(k - 1) =~= b.skip(k));
    } else {
        assert(a.skip(0) =~= a);
        assert(b.skip(0) =~= b);
    }
}

/// Whether `a` comes before `b` in the order of keys.
pub fn comes_before(a: &str, b: &str) -> (r: bool)
    ensures
        r == precedes(a@, b@),
{
    let x = chars_of(a);
    let y = chars_of(b);
    let mut i: usize = 0;
    while i < x.len() && i < y.len() && x[i] == y[i]
        invariant
            i <= x.len(),
            i <= y.len(),
            forall|j: int| 0 <= j < i ==> x@[j] == y@[j],
        decreases x.len() - i,
    {
        i += 1;
    }
    proof {
        lemma_precedes_behind_common_prefix(x@, y@, i as int);
        if i < x.len() && i < y.len() {
            assert(x@.skip(i as int)[0] == x@[i as int]);
            assert(y@.skip(i as int)[0] == y@[i as int]);
        }
    }
    if i >= y.len() {
        false
    } else if i >= x.len() {
        true
    } else {
        x[i] < y[i]
    }
}

/// The order of keys is transitive.
pub proof fn lemma_precedes_transitive(a: Seq<char>, b: Seq<char>, c: Seq<char>)
    requires
        precedes(a, b),
        precedes(b, c),
    ensures
        precedes(a, c),
    decreases a.len(),
{
    if a.len() > 0 && a[0] == b[0] && b[0] == c[0] {
        lemma_precedes_transitive(a.skip(1), b.skip(1), c.skip(1));
    }
}

/// Of two different texts one comes before the other.
pub proof fn lemma_precedes_total(a: Seq<char>, b: Seq<char>)
    requires
        a != b,
    ensures
        precedes(a, b) || precedes(b, a),
    decreases a.len(),
{
    if a.len() > 0 && b.len() > 0 {
        if a[0] == b[0] {
            if a.skip(1) == b.skip(1) {
                assert(a =~= seq![a[0]] + a.skip(1));
                assert(b =~= seq![b[0]] + b.skip(1));
            }
            lemma_precedes_total(a.skip(1), b.skip(1));
        }
    } else if a.len() == 0 && b.len() == 0 {
        assert(a =~= b);
    }
}

/// `s` without the occurrences of the non-empty `marker`, found from left
/// to right.
pub open spec fn without(s: Seq<char>, marker: Seq<char>) -> Seq<char>
    decreases s.len(),
{
    if s.len() == 0 {
        s
    } else {
        match after(s, marker) {
            Some(t) => without(t, marker),
            None => seq![s[0]] + without(s.skip(1), marker),
        }
    }
}

/// Removes every occurrence of `marker` from `s`.
pub fn remove_all(s: &str, marker: &str) -> (out: String)
    ensures
        out@ == without(s@, marker@),
{
    let cs = chars_of(s);
    let len = cs.len();
    let n = marker.unicode_len();
    let mut out = String::new();
    let mut kept_from: usize = 0;
    let mut i: usize = 0;
    assert(cs@.skip(0) =~= cs@);
    while i < len
        invariant
            kept_from <= i <= len,
            len == cs.len(),
            cs@ == s@,
            n == marker@.len(),
            without(cs@, marker@) == out@ + cs@.subrange(kept_from as int, i as int) + without(
                cs@.skip(i as int),
                marker@,
            ),
        decreases len - i,
    {
        let ghost rest = cs@.skip(i as int);
        let ghost pending = cs@.subrange(kept_from as int, i as int);
        if continues_with(&cs, i, marker) {
            out.append(s.substring_char(kept_from, i));
            i += n;
            kept_from = i;
            proof {
                assert(cs@.subrange(kept_from as int, i as int) =~= Seq::<char>::empty());
                assert(out@ + cs@.subrange(kept_from as int, i as int) =~= out@);
            }
        } else {
            proof {
                assert(rest.skip(1) =~= cs@.skip(i + 1));
                assert(cs@.subrange(kept_from as int, i + 1) =~= pending + seq![rest[0]]);
                assert(out@ + (pending + seq![rest[0]]) + without(cs@.skip(i + 1), marker@) =~= out@
                    + pending + (seq![rest[0]] + without(cs@.skip(i + 1), marker@)));
            }
            i += 1;
        }
    }
    out.append(s.substring_char(kept_from, len));
    proof {
        assert(out@ + without(cs@.skip(len as int), marker@) =~= out@);
    }
    out
}

/// Whether `s` ends with the non-empty `tail`.
pub open spec fn ends_in(s: Seq<char>, tail: Seq<char>) -> bool {
    0 < tail.len() <= s.len() && s.skip(s.len() - tail.len()) == tail
}

/// Whether `s` ends with `tail`, which is not empty.
pub fn ends_with(s: &str, tail: &str) -> (r: bool)
    ensures
        r == ends_in(s@, tail@),
{
    let cs = chars_of(s);
    let n = tail.unicode_len();
    if n == 0 || n > cs.len() {
        return false;
    }
    let at = cs.len() - n;
    let r = continues_with(&cs, at, tail);
    proof {
        let last = cs@.skip(at as int);
        if r {
            assert(last =~= tail@);
        } else {
            if last == tail@ {
                assert(tail@.is_prefix_of(last));
            }
        }
    }
    r
}

/// The text `a` followed by the text `b`.
pub fn followed_by(a: &str, b: &str) -> (r: String)
    ensures
        r@ == a@ + b@,
{
    let mut r = a.to_owned();
    r.append(b);
    r
}

/// Whether `s` begins with `lead`, which is not empty.
pub fn begins_with(s: &str, lead: &str) -> (r: bool)
    ensures
        r == (lead@.len() > 0 && lead@.is_prefix_of(s@)),
{
    let cs = chars_of(s);
    assert(cs@.skip(0) =~= s@);
    continues_with(&cs, 0, lead)
}

/// Copies of the strings.
pub fn clone_texts(v: &Vec<String>) -> (r: Vec<String>)
    ensures
        texts(r@) == texts(v@),
{
    let mut r: Vec<String> = Vec::new();
    let mut i: usize = 0;
    while i < v.len()
        invariant
            i <= v.len(),
            r.len() == i,
            forall|j: int| 0 <= j < i ==> (#[trigger] r@[j])@ == v@[j]@,
        decreases v.len() - i,
    {
        r.push(v[i].clone());
        i += 1;
    }
    assert(texts(r@) =~= texts(v@));
    r
}

} // verus!
