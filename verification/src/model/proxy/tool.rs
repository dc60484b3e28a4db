//! Building blocks of a link's query string: single `name=value` fragments
//! and lists joined by a separator.

use vstd::prelude::*;
use vstd::string::StringExecFns;

verus! {

/// The query fragment that gives `name` the value `value`.
pub open spec fn fragment(name: Seq<char>, value: Seq<char>) -> Seq<char> {
    name + "="@ + value
}

/// The fragments that an optional value contributes to a query: one if the
/// value is present, none if it is absent.
pub open spec fn optional_fragment(name: Seq<char>, value: Option<Seq<char>>) -> Seq<Seq<char>> {
    match value {
        Some(v) => seq![fragment(name, v)],
        None => Seq::empty(),
    }
}

/// The texts of `parts` in order, with `separator` between each two
/// neighbours. No separator stands before the first or after the last part.
pub open spec fn join_text(parts: Seq<Seq<char>>, separator: Seq<char>) -> Seq<char>
    decreases parts.len(),
{
    if parts.len() == 0 {
        Seq::empty()
    } else if parts.len() == 1 {
        parts[0]
    } else {
        join_text(parts.drop_last(), separator) + separator + parts.last()
    }
}

/// Joining a list that has one more part appends the separator and that
/// part, or that part alone if it is the first.
pub proof fn lemma_join_text_push(parts: Seq<Seq<char>>, last: Seq<char>, separator: Seq<char>)
    ensures
        join_text(parts.push(last), separator) == if parts.len() == 0 {
            last
        } else {
            join_text(parts, separator) + separator + last
        },
{
    assert(parts.push(last).drop_last() =~= parts);
}

/// The single query value that stands for a list of ALPN identifiers: the
/// identifiers in their order, separated by commas.
pub open spec fn alpn_text(alpn: Seq<Seq<char>>) -> Seq<char> {
    join_text(alpn, ","@)
}

/// A query parameter whose name is fixed and whose value is still to come.
pub struct Param<'a> {
    name: &'a str,
}

impl<'a> View for Param<'a> {
    type V = Seq<char>;

    /// The parameter's name.
    closed spec fn view(&self) -> Seq<char> {
        self.name@
    }
}

/// Fixes the name of a query parameter.
pub fn param<'a>(name: &'a str) -> (p: Param<'a>)
    ensures
        p@ == name@,
{
    Param { name }
}

impl<'a> Param<'a> {
    /// The fragment that gives this parameter the value `value`.
    pub fn apply(&self, value: &str) -> (r: String)
        ensures
            r@ == fragment(self@, value@),
    {
        let mut r = String::new();
        r.append(self.name);
        r.append("=");
        r.append(value);
        r
    }

    /// Appends to `fragments` what an optional value contributes: the
    /// parameter's fragment if the value is present, nothing if it is absent.
    pub fn apply_optional(&self, value: &Option<String>, fragments: &mut Vec<String>)
        ensures
            final(fragments).deep_view() == old(fragments).deep_view() + optional_fragment(
                self@,
                value.deep_view(),
            ),
    {
        match value {
            Some(v) => {
                let f = self.apply(v.as_str());
                fragments.push(f);
                assert(fragments.deep_view() =~= old(fragments).deep_view() + seq![f@]);
            },
            None => {
                assert(fragments.deep_view() =~= old(fragments).deep_view()
                    + Seq::<Seq<char>>::empty());
            },
        }
    }
}

/// Joins `parts` with `separator` between each two neighbours.
pub fn join(parts: &Vec<String>, separator: &str) -> (r: String)
    ensures
        r@ == join_text(parts.deep_view(), separator@),
{
    let mut r = String::new();
    let ghost texts = parts.deep_view();
    for i in 0..parts.len()
        invariant
            texts == parts.deep_view(),
            r@ == join_text(texts.take(i as int), separator@),
    {
        assert(texts.take(i + 1).drop_last() =~= texts.take(i as int));
        if i > 0 {
            r.append(separator);
        }
        r.append(parts[i].as_str());
    }
    assert(texts.take(parts.len() as int) =~= texts);
    r
}

/// Encodes a list of ALPN identifiers as one query value.
pub fn encode_alpn(alpn: &Vec<String>) -> (r: String)
    ensures
        r@ == alpn_text(alpn.deep_view()),
{
    join(alpn, ",")
}

/// The characters of `s`, one element each.
pub fn chars_of(s: &str) -> (v: Vec<char>)
    ensures
        v@ == s@,
{
    let mut v: Vec<char> = Vec::new();
    for c in it: s.chars()
        invariant
            it.seq() == s@,
            v@ == it.seq().take(it.index() as int),
    {
        v.push(c);
    }
    v
}

} // verus!
