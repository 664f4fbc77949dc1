use vstd::prelude::*;

verus! {

/// `k` is the position of the first `sep` in `s`.
pub open spec fn is_first_sep(s: Seq<char>, sep: char, k: int) -> bool {
    &&& 0 <= k < s.len()
    &&& s[k] == sep
    &&& forall|j: int| 0 <= j < k ==> s[j] != sep
}

/// The text before and after the first `sep` of `s`, when there is one.
pub open spec fn split_spec(s: Seq<char>, sep: char) -> Option<(Seq<char>, Seq<char>)> {
    if s.contains(sep) {
        let k = choose|k: int| is_first_sep(s, sep, k);
        Some((s.subrange(0, k), s.subrange(k + 1, s.len() as int)))
    } else {
        None
    }
}

proof fn lemma_first_sep_unique(s: Seq<char>, sep: char, k: int)
    requires
        is_first_sep(s, sep, k),
    ensures
        s.contains(sep),
        (choose|k: int| is_first_sep(s, sep, k)) == k,
{
    let c = choose|k: int| is_first_sep(s, sep, k);
    assert(is_first_sep(s, sep, c));
    if c < k {
        assert(s[c] != sep);
    } else if k < c {
        assert(s[k] != sep);
    }
}

/// Splits `s` at the first occurrence of `separator`.
pub fn split_pair<'a>(s: &'a str, separator: char) -> (r: Option<(&'a str, &'a str)>)
    ensures
        r is None <==> split_spec(s@, separator) is None,
        r matches Some((a, b)) ==> split_spec(s@, separator) == Some((a@, b@)),
{
    let n = s.unicode_len();
    let mut i: usize = 0;
    while i < n
        invariant
            n == s@.len(),
            i <= n,
            forall|j: int| 0 <= j < i ==> s@[j] != separator,
        decreases n - i,
    {
        if s.get_char(i) == separator {
            proof {
                lemma_first_sep_unique(s@, separator, i as int);
            }
            let left = s.substring_char(0, i);
            let right = s.substring_char(i + 1, n);
            return Some((left, right));
        }
        i = i + 1;
    }
    proof {
        if s@.contains(separator) {
            let j = choose|j: int| 0 <= j < s@.len() && s@[j] == separator;
            assert(s@[j] != separator);
        }
    }
    None
}

/// Both parsed halves, or `None` when either half failed to parse.
pub fn pair_from_parts<T>(left: Option<T>, right: Option<T>) -> (r: Option<(T, T)>)
    ensures
        r is Some <==> (left is Some && right is Some),
        r matches Some((a, b)) ==> left == Some(a) && right == Some(b),
{
    match (left, right) {
        (Some(l), Some(r)) => Some((l, r)),
        _ => None,
    }
}

/// Relies on `<T as FromStr>::from_str`: the value that `T` reads from `s`,
/// or `None` when `T` refuses the text. Nothing is assumed of the outcome.
#[verifier::external_body]
fn parse_text<T: std::str::FromStr>(s: &str) -> (r: Option<T>) {
    T::from_str(s).ok()
}

/// Parses `s` as two values of `T` separated by the first `separator`.
/// Fails when the separator is missing or either side does not parse.
pub fn parse_pair<T: std::str::FromStr>(s: &str, separator: char) -> (r: Option<(T, T)>)
    ensures
        split_spec(s@, separator) is None ==> r is None,
{
    match split_pair(s, separator) {
        None => None,
        Some((left, right)) => pair_from_parts(parse_text(left), parse_text(right)),
    }
}

} // verus!
