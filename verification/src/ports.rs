//! Finding the ports to connect to by the patterns of the hardware settings.
use regex::Regex;
use vstd::prelude::*;

verus! {

/// Whether a regular expression matches somewhere in a text; none where the expression is not
/// accepted.
pub uninterp spec fn regex_match(pattern: Seq<char>, text: Seq<char>) -> Option<bool>;

/// Calls `regex::Regex::new` on the pattern and, where it is accepted, `regex::Regex::is_match` on
/// the text. The claim: the answer depends on the two texts alone.
#[verifier::external_body]
fn regex_matches(pattern: &str, text: &str) -> (r: Option<bool>)
    ensures
        r == regex_match(pattern@, text@),
{
    Regex::new(pattern).ok().map(|re| re.is_match(text))
}

/// The first position at which `hits` holds.
pub open spec fn first_true(hits: Seq<bool>) -> Option<int>
    decreases hits.len(),
{
    if hits.len() == 0 {
        None
    } else {
        match first_true(hits.drop_last()) {
            Some(i) => Some(i),
            None => if hits.last() {
                Some(hits.len() - 1)
            } else {
                None
            },
        }
    }
}

/// The first port for which `hits` holds.
pub fn first_hit(hits: &Vec<bool>) -> (r: Option<usize>)
    ensures
        match r {
            Some(i) => i < hits@.len() && hits@[i as int] && first_true(hits@) == Some(i as int),
            None => first_true(hits@) is None,
        },
{
    let mut found: Option<usize> = None;
    let mut i: usize = 0;
    while i < hits.len()
        invariant
            i <= hits@.len(),
            match found {
                Some(j) => j < i && hits@[j as int] && first_true(hits@.take(i as int)) == Some(
                    j as int,
                ),
                None => first_true(hits@.take(i as int)) is None,
            },
        decreases hits@.len() - i,
    {
        assert(hits@.take(i as int + 1).drop_last() =~= hits@.take(i as int));
        if found.is_none() && hits[i] {
            found = Some(i);
        }
        i = i + 1;
    }
    assert(hits@.take(i as int) =~= hits@);
    found
}

/// Whether a port has a name that the pattern matches.
pub open spec fn is_hit(name: Option<String>, pattern: Seq<char>) -> bool {
    name matches Some(n) && regex_match(pattern, n@) == Some(true)
}

/// The first port with a name that the pattern matches. Ports whose name is not known are passed
/// over.
pub open spec fn port_found(names: Seq<Option<String>>, pattern: Seq<char>) -> Option<int> {
    first_true(names.map_values(|name: Option<String>| is_hit(name, pattern)))
}

/// Whether `r` is port `found` of `names` and its name.
pub open spec fn is_port(
    r: Option<(usize, String)>,
    names: Seq<Option<String>>,
    found: Option<int>,
) -> bool {
    match found {
        Some(i) => {
            &&& r matches Some((at, name))
            &&& at == i
            &&& names[i] matches Some(n)
            &&& name@ == n@
        },
        None => r is None,
    }
}

/// Finds the first port with a name that the pattern matches.
pub fn find_port_by_regex(names: &Vec<Option<String>>, pattern: &str) -> (r: Option<
    (usize, String),
>)
    ensures
        is_port(r, names@, port_found(names@, pattern@)),
{
    let mut hits: Vec<bool> = Vec::new();
    let mut i: usize = 0;
    let ghost all = names@.map_values(|name: Option<String>| is_hit(name, pattern@));
    while i < names.len()
        invariant
            i <= names@.len(),
            all == names@.map_values(|name: Option<String>| is_hit(name, pattern@)),
            hits@ == all.take(i as int),
        decreases names@.len() - i,
    {
        let hit: bool = match &names[i] {
            Some(name) => match regex_matches(pattern, name.as_str()) {
                Some(matched) => matched,
                None => false,
            },
            None => false,
        };
        hits.push(hit);
        assert(all.take(i as int + 1) =~= all.take(i as int).push(all[i as int]));
        i = i + 1;
    }
    assert(hits@ =~= all);
    match first_hit(&hits) {
        Some(at) => {
            assert(is_hit(names@[at as int], pattern@));
            match &names[at] {
                Some(name) => Some((at, name.clone())),
                None => None,
            }
        },
        None => None,
    }
}

/// The first port that the first of the patterns with a match finds.
pub open spec fn port_found_by_any(names: Seq<Option<String>>, patterns: Seq<String>) -> Option<int>
    decreases patterns.len(),
{
    if patterns.len() == 0 {
        None
    } else {
        match port_found_by_any(names, patterns.drop_last()) {
            Some(i) => Some(i),
            None => port_found(names, patterns.last()@),
        }
    }
}

/// A port that the first patterns find is the one that all of them find.
proof fn lemma_found_stays(names: Seq<Option<String>>, patterns: Seq<String>, i: int)
    requires
        0 <= i <= patterns.len(),
        port_found_by_any(names, patterns.take(i)) is Some,
    ensures
        port_found_by_any(names, patterns) == port_found_by_any(names, patterns.take(i)),
    decreases patterns.len() - i,
{
    if i < patterns.len() {
        assert(patterns.take(i + 1).drop_last() =~= patterns.take(i));
        lemma_found_stays(names, patterns, i + 1);
    } else {
        assert(patterns.take(i) =~= patterns);
    }
}

/// Finds the first port that the first of the patterns with a match finds.
pub fn find_port_by_any_regex(names: &Vec<Option<String>>, patterns: &Vec<String>) -> (r: Option<
    (usize, String),
>)
    ensures
        is_port(r, names@, port_found_by_any(names@, patterns@)),
{
    let mut i: usize = 0;
    while i < patterns.len()
        invariant
            i <= patterns@.len(),
            port_found_by_any(names@, patterns@.take(i as int)) is None,
        decreases patterns@.len() - i,
    {
        assert(patterns@.take(i as int + 1).drop_last() =~= patterns@.take(i as int));
        let found: Option<(usize, String)> = find_port_by_regex(names, patterns[i].as_str());
        if found.is_some() {
            proof {
                lemma_found_stays(names@, patterns@, i as int + 1);
            }
            return found;
        }
        i = i + 1;
    }
    assert(patterns@.take(i as int) =~= patterns@);
    None
}

} // verus!
