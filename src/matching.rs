use vstd::prelude::*;

verus! {

/// What `str::to_lowercase` returns for a string of these characters.
pub uninterp spec fn lower_of(s: Seq<char>) -> Seq<char>;

/// `s` with every occurrence of `from` replaced by the characters of `to`.
pub open spec fn replaced(s: Seq<char>, from: char, to: Seq<char>) -> Seq<char>
    decreases s.len(),
{
    if s.len() == 0 {
        Seq::empty()
    } else {
        let rest = replaced(s.drop_last(), from, to);
        if s.last() == from {
            rest + to
        } else {
            rest.push(s.last())
        }
    }
}

/// `needle` occurs in `hay` as a run of consecutive characters.
pub open spec fn is_infix(needle: Seq<char>, hay: Seq<char>) -> bool {
    exists|i: int|
        0 <= i && i + needle.len() <= hay.len() && #[trigger] hay.subrange(i, i + needle.len())
            == needle
}

/// Recognized text with its periods and commas taken out.
pub open spec fn strip_punct(s: Seq<char>) -> Seq<char> {
    replaced(replaced(s, '.', Seq::empty()), ',', Seq::empty())
}

/// The strings searched for when looking for `target`: the target in lower
/// case and, where it holds an underscore, also with spaces for underscores.
pub open spec fn candidates(target: Seq<char>) -> Seq<Seq<char>> {
    if target.contains('_') {
        seq![lower_of(target), lower_of(replaced(target, '_', seq![' ']))]
    } else {
        seq![lower_of(target)]
    }
}

/// Some candidate occurs in the normalized text `picked`.
pub open spec fn matches_any(picked: Seq<char>, cands: Seq<Seq<char>>) -> bool {
    exists|k: int| 0 <= k < cands.len() && is_infix(#[trigger] cands[k], picked)
}

/// The views of a list of strings.
pub open spec fn views(v: Seq<String>) -> Seq<Seq<char>> {
    v.map_values(|s: String| s@)
}

/// Deleting a character leaves none of it, and adds no other character.
proof fn lemma_deleted(s: Seq<char>, c: char)
    ensures
        forall|k: int|
            0 <= k < replaced(s, c, Seq::empty()).len() ==> {
                let x = #[trigger] replaced(s, c, Seq::empty())[k];
                x != c && s.contains(x)
            },
    decreases s.len(),
{
    if s.len() > 0 {
        let prev = s.drop_last();
        lemma_deleted(prev, c);
        let out = replaced(s, c, Seq::empty());
        let pout = replaced(prev, c, Seq::empty());
        assert forall|k: int| 0 <= k < out.len() implies #[trigger] out[k] != c && s.contains(
            out[k],
        ) by {
            if s.last() == c {
                assert(out =~= pout);
            }
            if k < pout.len() {
                assert(out[k] == pout[k]);
                let j = choose|j: int| 0 <= j < prev.len() && prev[j] == pout[k];
                assert(s[j] == prev[j]);
            } else {
                assert(s[s.len() - 1] == s.last());
            }
        }
    }
}

/// Replacing a character that does not occur changes nothing.
proof fn lemma_replace_absent(s: Seq<char>, c: char, to: Seq<char>)
    requires
        !s.contains(c),
    ensures
        replaced(s, c, to) == s,
    decreases s.len(),
{
    if s.len() > 0 {
        let prev = s.drop_last();
        assert(!prev.contains(c)) by {
            if prev.contains(c) {
                let j = choose|j: int| 0 <= j < prev.len() && prev[j] == c;
                assert(s[j] == c);
            }
        }
        lemma_replace_absent(prev, c, to);
        assert(s[s.len() - 1] == s.last());
        assert(prev.push(s.last()) =~= s);
    }
}

/// Normalizing text that is already normalized leaves it as it is.
pub proof fn lemma_normalize_idempotent(s: Seq<char>)
    ensures
        strip_punct(strip_punct(s)) == strip_punct(s),
{
    let a = replaced(s, '.', Seq::empty());
    let b = replaced(a, ',', Seq::empty());
    lemma_deleted(s, '.');
    lemma_deleted(a, ',');
    assert(!b.contains('.')) by {
        if b.contains('.') {
            let k = choose|k: int| 0 <= k < b.len() && b[k] == '.';
            let j = choose|j: int| 0 <= j < a.len() && a[j] == b[k];
            assert(a[j] != '.');
        }
    }
    assert(!b.contains(','));
    lemma_replace_absent(b, '.', Seq::empty());
    lemma_replace_absent(b, ',', Seq::empty());
}

/// Relies on `str::to_lowercase`: the lower-case form depends on the
/// characters alone.
#[verifier::external_body]
fn lowercase(s: &str) -> (r: String)
    ensures
        r@ == lower_of(s@),
{
    s.to_lowercase()
}

/// Relies on `str::replace` with a `char` pattern: every occurrence of `from`
/// is replaced by `to`, the rest is copied in order.
#[verifier::external_body]
fn replace_char(s: &str, from: char, to: &str) -> (r: String)
    ensures
        r@ == replaced(s@, from, to@),
{
    s.replace(from, to)
}

/// Relies on `str::contains` with a `char` pattern: whether the character
/// occurs in the string.
#[verifier::external_body]
fn has_char(s: &str, c: char) -> (r: bool)
    ensures
        r == s@.contains(c),
{
    s.contains(c)
}

/// Relies on `str::contains` with a `&str` pattern: whether the pattern
/// matches a sub-slice of the string.
#[verifier::external_body]
fn has_infix(hay: &str, needle: &str) -> (r: bool)
    ensures
        r == is_infix(needle@, hay@),
{
    hay.contains(needle)
}

/// The strings to look for in recognized text for the target `target`.
pub fn supplement_target_string(target: &String) -> (r: Vec<String>)
    ensures
        views(r@) == candidates(target@),
{
    let mut strings: Vec<String> = Vec::new();
    let t = target.as_str();
    if has_char(t, '_') {
        strings.push(lowercase(t));
        proof {
            reveal_strlit(" ");
            assert(" "@ =~= seq![' ']);
        }
        let spaced = replace_char(t, '_', " ");
        strings.push(lowercase(spaced.as_str()));
        proof {
            assert(views(strings@) =~= candidates(target@));
        }
    } else {
        strings.push(lowercase(t));
        proof {
            assert(views(strings@) =~= candidates(target@));
        }
    }
    strings
}

/// Takes the periods and commas out of recognized text already in lower case.
pub fn normalize_lowered(lowered: &str) -> (r: String)
    ensures
        r@ == strip_punct(lowered@),
{
    proof {
        reveal_strlit("");
        assert(""@ =~= Seq::<char>::empty());
    }
    let no_period = replace_char(lowered, '.', "");
    replace_char(no_period.as_str(), ',', "")
}

/// Recognized text in lower case, without periods and commas.
pub fn normalize_recognized(text: &str) -> (r: String)
    ensures
        r@ == strip_punct(lower_of(text@)),
{
    let lowered = lowercase(text);
    normalize_lowered(lowered.as_str())
}

/// Whether some candidate occurs in the normalized text `picked`.
pub fn matches_normalized(picked: &str, cands: &Vec<String>) -> (r: bool)
    ensures
        r == matches_any(picked@, views(cands@)),
{
    let mut k: usize = 0;
    while k < cands.len()
        invariant
            k <= cands@.len(),
            forall|m: int| 0 <= m < k ==> !is_infix(#[trigger] views(cands@)[m], picked@),
        decreases cands.len() - k,
    {
        if has_infix(picked, cands[k].as_str()) {
            assert(is_infix(views(cands@)[k as int], picked@));
            return true;
        }
        k = k + 1;
    }
    false
}

/// Whether the recognized text, once normalized, contains some candidate.
pub fn text_matches(recognized: &str, cands: &Vec<String>) -> (r: bool)
    ensures
        r == matches_any(strip_punct(lower_of(recognized@)), views(cands@)),
{
    let picked = normalize_recognized(recognized);
    matches_normalized(picked.as_str(), cands)
}

} // verus!
