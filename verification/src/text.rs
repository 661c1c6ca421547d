use vstd::prelude::*;
use vstd::string::StrSliceExecFns;
use vstd::string::StringExecFns;

verus! {

/// Splitting a character sequence on a separator, in the way the read-header
/// and ledger grammars need it: every occurrence of the separator ends a
/// field, so `n` separators always yield `n + 1` fields, empty ones included.
pub open spec fn split_on(s: Seq<char>, sep: char) -> Seq<Seq<char>>
    decreases s.len(),
{
    if s.len() == 0 {
        seq![Seq::<char>::empty()]
    } else if s[0] == sep {
        seq![Seq::<char>::empty()] + split_on(s.drop_first(), sep)
    } else {
        let rest = split_on(s.drop_first(), sep);
        seq![seq![s[0]] + rest[0]] + rest.drop_first()
    }
}

pub proof fn lemma_split_on_len(s: Seq<char>, sep: char)
    ensures
        split_on(s, sep).len() >= 1,
    decreases s.len(),
{
    if s.len() != 0 {
        lemma_split_on_len(s.drop_first(), sep);
    }
}

/// A sequence without the separator splits into itself alone.
pub proof fn lemma_split_no_sep(s: Seq<char>, sep: char)
    requires
        forall|i: int| 0 <= i < s.len() ==> s[i] != sep,
    ensures
        split_on(s, sep) =~= seq![s],
    decreases s.len(),
{
    if s.len() != 0 {
        lemma_split_no_sep(s.drop_first(), sep);
        lemma_split_on_len(s.drop_first(), sep);
        let rest = split_on(s.drop_first(), sep);
        assert(rest[0] == s.drop_first());
        assert(seq![s[0]] + s.drop_first() =~= s);
        assert(rest.drop_first() =~= Seq::<Seq<char>>::empty());
        assert(split_on(s, sep) =~~= seq![s]);
    } else {
        assert(s =~= Seq::<char>::empty());
        assert(split_on(s, sep) =~~= seq![s]);
    }
}

/// Peeling the first field: if `head` holds no separator, then splitting
/// `head + sep + tail` yields `head` followed by the fields of `tail`.
pub proof fn lemma_split_peel(head: Seq<char>, sep: char, tail: Seq<char>)
    requires
        forall|i: int| 0 <= i < head.len() ==> head[i] != sep,
    ensures
        split_on(head + seq![sep] + tail, sep) =~= seq![head] + split_on(tail, sep),
    decreases head.len(),
{
    let s = head + seq![sep] + tail;
    if head.len() == 0 {
        assert(s =~= seq![sep] + tail);
        assert(s[0] == sep);
        assert(s.drop_first() =~= tail);
        assert(head =~= Seq::<char>::empty());
        assert(split_on(s, sep) =~~= seq![head] + split_on(tail, sep));
    } else {
        lemma_split_peel(head.drop_first(), sep, tail);
        assert(s[0] == head[0]);
        assert(s[0] != sep);
        assert(s.drop_first() =~= head.drop_first() + seq![sep] + tail);
        let rest = split_on(s.drop_first(), sep);
        lemma_split_on_len(tail, sep);
        assert(rest =~~= seq![head.drop_first()] + split_on(tail, sep));
        assert(rest[0] == head.drop_first());
        assert(seq![s[0]] + rest[0] =~= head);
        assert(rest.drop_first() =~~= split_on(tail, sep));
        assert(split_on(s, sep) =~~= seq![head] + split_on(tail, sep));
    }
}

/// The views of a sequence of strings.
pub open spec fn str_views(ts: Seq<String>) -> Seq<Seq<char>> {
    ts.map_values(|t: String| t@)
}

/// The length of the longest prefix of `s` free of `sep`: the index of the
/// first `sep`, or the length of `s` when there is none.
pub open spec fn prefix_len_until(s: Seq<char>, sep: char) -> int
    decreases s.len(),
{
    if s.len() == 0 {
        0
    } else if s[0] == sep {
        0
    } else {
        1 + prefix_len_until(s.drop_first(), sep)
    }
}

/// The first separator-free prefix is determined by its witnesses: if all of
/// `s[..i]` avoids `sep` and either `s` ends or `s[i]` is `sep`, then `i` is
/// exactly `prefix_len_until(s, sep)`.
pub proof fn lemma_prefix_len_until_is(s: Seq<char>, sep: char, i: int)
    requires
        0 <= i <= s.len(),
        forall|j: int| 0 <= j < i ==> s[j] != sep,
        i < s.len() ==> s[i] == sep,
    ensures
        prefix_len_until(s, sep) == i,
    decreases s.len(),
{
    if s.len() != 0 && s[0] != sep {
        lemma_prefix_len_until_is(s.drop_first(), sep, i - 1);
    }
}

/// Splitting on the first occurrence of a separator: `None` when `s` holds no
/// separator, else the part before the first separator and everything after
/// it (later separators stay in the second part).
pub open spec fn split_first(s: Seq<char>, sep: char) -> Option<(Seq<char>, Seq<char>)> {
    let i = prefix_len_until(s, sep);
    if i == s.len() {
        None
    } else {
        Some((s.take(i), s.skip(i + 1)))
    }
}

/// Splits `s` on the first occurrence of `sep`, as `split_first` describes.
pub fn split_first_str(s: &str, sep: char) -> (r: Option<(String, String)>)
    ensures
        split_first(s@, sep) is Some <==> r is Some,
        r matches Some(p) ==> split_first(s@, sep) matches Some(q) && p.0@ == q.0 && p.1@ == q.1,
{
    let n = s.unicode_len();
    let mut i: usize = 0;
    while i < n && s.get_char(i) != sep
        invariant
            0 <= i <= n,
            n == s@.len(),
            forall|j: int| 0 <= j < i ==> s@[j] != sep,
        decreases n - i,
    {
        i = i + 1;
    }
    proof {
        lemma_prefix_len_until_is(s@, sep, i as int);
    }
    if i == n {
        None
    } else {
        let head = s.substring_char(0, i);
        let tail = s.substring_char(i + 1, n);
        Some((head.to_owned(), tail.to_owned()))
    }
}

/// Character-for-character equality of two string slices.
pub fn str_eq(a: &str, b: &str) -> (r: bool)
    ensures
        r == (a@ == b@),
{
    let na = a.unicode_len();
    let nb = b.unicode_len();
    if na != nb {
        return false;
    }
    let mut i: usize = 0;
    while i < na
        invariant
            0 <= i <= na,
            na == a@.len(),
            na == b@.len(),
            forall|j: int| 0 <= j < i ==> a@[j] == b@[j],
        decreases na - i,
    {
        if a.get_char(i) != b.get_char(i) {
            return false;
        }
        i = i + 1;
    }
    proof {
        assert(a@ =~= b@);
    }
    true
}

/// Splits `s` on every occurrence of `sep`, as `split_on` describes.
pub fn split_str(s: &str, sep: char) -> (r: Vec<String>)
    ensures
        r@.map_values(|t: String| t@) =~= split_on(s@, sep),
    decreases s@.len(),
{
    let n = s.unicode_len();
    let mut i: usize = 0;
    while i < n && s.get_char(i) != sep
        invariant
            0 <= i <= n,
            n == s@.len(),
            forall|j: int| 0 <= j < i ==> s@[j] != sep,
        decreases n - i,
    {
        i = i + 1;
    }
    if i == n {
        proof {
            lemma_split_no_sep(s@, sep);
        }
        let mut one: Vec<String> = Vec::new();
        one.push(String::from_str(s));
        proof {
            assert(one@.map_values(|t: String| t@) =~= seq![s@]);
        }
        one
    } else {
        let head = s.substring_char(0, i);
        let tail = s.substring_char(i + 1, n);
        let mut fields = split_str(tail, sep);
        fields.insert(0, head.to_owned());
        proof {
            lemma_split_peel(head@, sep, tail@);
            assert(head@ + seq![sep] + tail@ =~= s@);
        }
        fields
    }
}

} // verus!
