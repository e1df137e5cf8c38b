//! Headers that a connector sends.

use crate::collecting::agree;
use crate::error::internal;
use crate::error::ErrorView;
use crate::error::FederationError;
use apollo_compiler::collections::IndexMap;
use vstd::prelude::*;

verus! {

/// Where the value of a header comes from.
#[derive(Debug, PartialEq, Eq)]
pub enum HeaderSource {
    /// From the header of this name in the client's request.
    From(String),
    /// From this template.
    Value(String),
}

/// A header and its source.
#[derive(Debug, PartialEq, Eq)]
pub struct Header {
    pub name: String,
    pub source: HeaderSource,
}

/// The entries of a header map, in order.
pub uninterp spec fn header_entries(headers: IndexMap<String, HeaderSource>) -> Seq<(Seq<char>, HeaderSource)>;

/// The index of the first entry named `name`, or the number of entries if there is none.
pub open spec fn header_index(entries: Seq<(Seq<char>, HeaderSource)>, name: Seq<char>) -> int
    decreases entries.len(),
{
    if entries.len() == 0 || entries[0].0 == name {
        0
    } else {
        1 + header_index(entries.drop_first(), name)
    }
}

/// What `entries` has for the header `name`.
pub open spec fn source_of(entries: Seq<(Seq<char>, HeaderSource)>, name: Seq<char>) -> Option<
    HeaderSource,
> {
    let i = header_index(entries, name);
    if i < entries.len() {
        Some(entries[i].1)
    } else {
        None
    }
}

/// The entries once `name` has the source `source`: in the place of the entry of that name, or
/// last if there is none.
pub open spec fn with_header(
    entries: Seq<(Seq<char>, HeaderSource)>,
    name: Seq<char>,
    source: HeaderSource,
) -> Seq<(Seq<char>, HeaderSource)> {
    let i = header_index(entries, name);
    if i < entries.len() {
        entries.update(i, (name, source))
    } else {
        entries.push((name, source))
    }
}

/// The entries that come of adding `headers` one after the other to an empty map.
pub open spec fn with_headers(headers: Seq<Header>) -> Seq<(Seq<char>, HeaderSource)>
    decreases headers.len(),
{
    if headers.len() == 0 {
        Seq::empty()
    } else {
        with_header(
            with_headers(headers.drop_last()),
            headers.last().name@,
            headers.last().source,
        )
    }
}

/// `IndexMap::default`: the map has no entry.
#[verifier::external_body]
pub(crate) fn empty_headers() -> (headers: IndexMap<String, HeaderSource>)
    ensures
        header_entries(headers) == Seq::<(Seq<char>, HeaderSource)>::empty(),
{
    IndexMap::default()
}

/// `IndexMap::insert`: where the map has the key, the entry keeps its place, its value is
/// replaced and the value that it had is returned; otherwise the entry is added last.
#[verifier::external_body]
pub(crate) fn insert_header(
    headers: &mut IndexMap<String, HeaderSource>,
    name: String,
    source: HeaderSource,
) -> (replaced: Option<HeaderSource>)
    ensures
        header_entries(*final(headers)) == with_header(
            header_entries(*old(headers)),
            name@,
            source,
        ),
        replaced == source_of(header_entries(*old(headers)), name@),
{
    headers.insert(name, source)
}

/// Whether `outcome` is the map of the parsed headers: of all of them where each was understood,
/// otherwise the message of the first that was not.
pub open spec fn headers_collected(
    parsed: Seq<Result<Header, String>>,
    outcome: Result<IndexMap<String, HeaderSource>, ErrorView>,
) -> bool {
    match outcome {
        Ok(headers) => {
            &&& forall|i: int| 0 <= i < parsed.len() ==> #[trigger] parsed[i] is Ok
            &&& header_entries(headers) == with_headers(
                parsed.map_values(|header: Result<Header, String>| header->Ok_0),
            )
        },
        Err(error) => exists|k: int|
            {
                &&& 0 <= k < parsed.len()
                &&& #[trigger] parsed[k] is Err
                &&& forall|i: int| 0 <= i < k ==> #[trigger] parsed[i] is Ok
                &&& error == internal(parsed[k]->Err_0@)
            },
    }
}

/// Collects parsed headers into a map from names to sources.
pub fn collect_headers(parsed: Vec<Result<Header, String>>) -> (collected: Result<
    IndexMap<String, HeaderSource>,
    FederationError,
>)
    ensures
        headers_collected(parsed@, crate::error::outcome(collected)),
{
    let mut headers = empty_headers();
    let ghost names = parsed@.map_values(|header: Result<Header, String>| header->Ok_0);
    proof {
        assert(names.take(0) =~= Seq::<Header>::empty());
    }
    for item in iter: parsed.into_iter()
        invariant
            iter.seq() == parsed@,
            names == parsed@.map_values(|header: Result<Header, String>| header->Ok_0),
            forall|i: int| 0 <= i < iter.index() ==> #[trigger] parsed@[i] is Ok,
            header_entries(headers) == with_headers(names.take(iter.index() as int)),
    {
        match item {
            Ok(header) => {
                proof {
                    let n = iter.index() as int;
                    assert(names.take(n + 1).drop_last() =~= names.take(n));
                    assert(names.take(n + 1).last() == header);
                }
                insert_header(&mut headers, header.name, header.source);
            },
            Err(message) => {
                return Err(FederationError::Internal { message });
            },
        }
    }
    proof {
        assert(names.take(names.len() as int) =~= names);
    }
    Ok(headers)
}

/// Whether two header maps have the same entries in the same order.
pub open spec fn same_headers() -> spec_fn(
    IndexMap<String, HeaderSource>,
    IndexMap<String, HeaderSource>,
) -> bool {
    |first: IndexMap<String, HeaderSource>, second: IndexMap<String, HeaderSource>|
        header_entries(first) == header_entries(second)
}

/// Parsed headers give one map only.
pub proof fn law_collected_headers_are_determined(
    parsed: Seq<Result<Header, String>>,
    first: Result<IndexMap<String, HeaderSource>, ErrorView>,
    second: Result<IndexMap<String, HeaderSource>, ErrorView>,
)
    requires
        headers_collected(parsed, first),
        headers_collected(parsed, second),
    ensures
        agree(same_headers(), first, second),
{
}

/// The index that [`header_index`] gives is that of the first entry of the name.
pub proof fn law_header_index(entries: Seq<(Seq<char>, HeaderSource)>, name: Seq<char>)
    ensures
        0 <= header_index(entries, name) <= entries.len(),
        header_index(entries, name) < entries.len() ==> entries[header_index(entries, name)].0
            == name,
        forall|i: int|
            0 <= i < header_index(entries, name) ==> (#[trigger] entries[i]).0 != name,
    decreases entries.len(),
{
    if entries.len() > 0 && entries[0].0 != name {
        law_header_index(entries.drop_first(), name);
        assert forall|i: int| 0 <= i < header_index(entries, name) implies (
        #[trigger] entries[i]).0 != name by {
            if i > 0 {
                assert(entries[i] == entries.drop_first()[i - 1]);
            }
        }
    }
}

/// Adding a header gives it its source and leaves the other headers as they are.
pub proof fn law_added_header_is_found(
    entries: Seq<(Seq<char>, HeaderSource)>,
    name: Seq<char>,
    source: HeaderSource,
    other: Seq<char>,
)
    ensures
        source_of(with_header(entries, name, source), name) == Some(source),
        other != name ==> source_of(with_header(entries, name, source), other) == source_of(
            entries,
            other,
        ),
{
    let added = with_header(entries, name, source);
    law_header_index(entries, name);
    law_header_index(added, name);
    law_header_index(entries, other);
    law_header_index(added, other);
    let i = header_index(entries, name);
    assert(added[i] == (name, source));
    assert(header_index(added, name) == i);
    if other != name {
        let j = header_index(entries, other);
        if j < entries.len() {
            assert(added[j] == entries[j]);
            assert(header_index(added, other) == j);
        } else {
            assert(forall|k: int| 0 <= k < added.len() ==> (#[trigger] added[k]).0 != other);
        }
    }
}

/// Of several headers of one name, the last one counts.
pub proof fn law_last_header_wins(headers: Seq<Header>, name: Seq<char>)
    ensures
        source_of(with_headers(headers), name) == crate::collecting::last_of(
            headers,
            |header: Header|
                if header.name@ == name {
                    Some(header.source)
                } else {
                    None
                },
        ),
    decreases headers.len(),
{
    if headers.len() > 0 {
        law_last_header_wins(headers.drop_last(), name);
        law_added_header_is_found(
            with_headers(headers.drop_last()),
            headers.last().name@,
            headers.last().source,
            name,
        );
    }
}

/// A header map has one entry for each name.
pub proof fn law_header_names_are_distinct(headers: Seq<Header>)
    ensures
        forall|i: int, j: int|
            #![trigger with_headers(headers)[i], with_headers(headers)[j]]
            0 <= i < j < with_headers(headers).len() ==> with_headers(headers)[i].0
                != with_headers(headers)[j].0,
    decreases headers.len(),
{
    if headers.len() > 0 {
        law_header_names_are_distinct(headers.drop_last());
        law_header_index(with_headers(headers.drop_last()), headers.last().name@);
    }
}

/// Adding a header leaves every other entry where it is and as it is. A new name comes last.
pub proof fn law_added_header_keeps_places(
    entries: Seq<(Seq<char>, HeaderSource)>,
    name: Seq<char>,
    source: HeaderSource,
    i: int,
)
    requires
        0 <= i < entries.len(),
    ensures
        entries[i].0 != name ==> with_header(entries, name, source)[i] == entries[i],
        (forall|j: int| 0 <= j < entries.len() ==> (#[trigger] entries[j]).0 != name)
            ==> with_header(entries, name, source) == entries.push((name, source)),
        entries[i].0 == name ==> with_header(entries, name, source).len() == entries.len(),
        entries[i].0 == name && (forall|j: int| 0 <= j < i ==> (#[trigger] entries[j]).0 != name)
            ==> with_header(entries, name, source)[i] == (name, source),
{
    law_header_index(entries, name);
}

/// The entries of a map of headers: at `n` stands the name that is first used at `places.0[n]`, with
/// the source that it is last given, at `places.1[n]`.
proof fn lemma_entries_of_headers(headers: Seq<Header>) -> (places: (Seq<int>, Seq<int>))
    ensures
        places.0.len() == with_headers(headers).len(),
        places.1.len() == with_headers(headers).len(),
        forall|n: int|
            0 <= n < places.0.len() ==> {
                &&& 0 <= #[trigger] places.0[n] < headers.len()
                &&& headers[places.0[n]].name@ == with_headers(headers)[n].0
                &&& forall|j: int|
                    0 <= j < places.0[n] ==> (#[trigger] headers[j]).name@ != with_headers(
                        headers,
                    )[n].0
            },
        forall|n: int|
            0 <= n < places.1.len() ==> {
                &&& 0 <= #[trigger] places.1[n] < headers.len()
                &&& headers[places.1[n]].name@ == with_headers(headers)[n].0
                &&& headers[places.1[n]].source == with_headers(headers)[n].1
                &&& forall|j: int|
                    places.1[n] < j < headers.len() ==> (#[trigger] headers[j]).name@
                        != with_headers(headers)[n].0
            },
        forall|n: int, m: int|
            #![trigger places.0[n], places.0[m]]
            0 <= n < m < places.0.len() ==> places.0[n] < places.0[m],
        forall|j: int|
            0 <= j < headers.len() ==> 0 <= header_index(
                with_headers(headers),
                (#[trigger] headers[j]).name@,
            ) < with_headers(headers).len(),
    decreases headers.len(),
{
    if headers.len() == 0 {
        (Seq::empty(), Seq::empty())
    } else {
        let last = headers.len() - 1;
        let before = headers.drop_last();
        let name = headers[last].name@;
        let entries = with_headers(before);
        let all = with_headers(headers);
        let (firsts, lasts) = lemma_entries_of_headers(before);
        let at = header_index(entries, name);
        law_header_index(entries, name);
        law_header_names_are_distinct(before);
        assert(headers.last() == headers[last]);
        assert forall|n: int| 0 <= n < entries.len() implies {
            &&& 0 <= firsts[n] < last
            &&& #[trigger] entries[n].0 == headers[firsts[n]].name@
            &&& forall|j: int|
                0 <= j < firsts[n] ==> (#[trigger] headers[j]).name@ != entries[n].0
            &&& 0 <= lasts[n] < last
            &&& headers[lasts[n]].name@ == entries[n].0
            &&& headers[lasts[n]].source == entries[n].1
            &&& forall|j: int|
                lasts[n] < j < last ==> (#[trigger] headers[j]).name@ != entries[n].0
        } by {
            assert(0 <= firsts[n] < before.len());
            assert(0 <= lasts[n] < before.len());
            assert(before[firsts[n]] == headers[firsts[n]]);
            assert(before[lasts[n]] == headers[lasts[n]]);
            assert forall|j: int| 0 <= j < firsts[n] implies (#[trigger] headers[j]).name@
                != entries[n].0 by {
                assert(before[j] == headers[j]);
            }
            assert forall|j: int| lasts[n] < j < last implies (#[trigger] headers[j]).name@
                != entries[n].0 by {
                assert(before[j] == headers[j]);
            }
        }
        assert forall|j: int| 0 <= j < headers.len() implies 0 <= header_index(
            all,
            (#[trigger] headers[j]).name@,
        ) < all.len() by {
            law_header_index(all, headers[j].name@);
            if j < last {
                assert(before[j] == headers[j]);
                let n = header_index(entries, before[j].name@);
                law_header_index(entries, before[j].name@);
                assert(all[n].0 == entries[n].0);
            } else {
                assert(all[at].0 == name);
            }
        }
        if at < entries.len() {
            let ends = lasts.update(at, last);
            assert forall|n: int| 0 <= n < ends.len() implies {
                &&& 0 <= #[trigger] ends[n] < headers.len()
                &&& headers[ends[n]].name@ == all[n].0
                &&& headers[ends[n]].source == all[n].1
                &&& forall|j: int|
                    ends[n] < j < headers.len() ==> (#[trigger] headers[j]).name@ != all[n].0
            } by {
                assert(entries[n].0 == headers[firsts[n]].name@);
                if n != at {
                    assert(entries[n].0 != entries[at].0);
                }
            }
            assert forall|n: int| 0 <= n < firsts.len() implies {
                &&& 0 <= #[trigger] firsts[n] < headers.len()
                &&& headers[firsts[n]].name@ == all[n].0
                &&& forall|j: int|
                    0 <= j < firsts[n] ==> (#[trigger] headers[j]).name@ != all[n].0
            } by {
                assert(entries[n].0 == headers[firsts[n]].name@);
            }
            (firsts, ends)
        } else {
            let starts = firsts.push(last);
            let ends = lasts.push(last);
            assert forall|n: int| 0 <= n < ends.len() implies {
                &&& 0 <= #[trigger] ends[n] < headers.len()
                &&& headers[ends[n]].name@ == all[n].0
                &&& headers[ends[n]].source == all[n].1
                &&& forall|j: int|
                    ends[n] < j < headers.len() ==> (#[trigger] headers[j]).name@ != all[n].0
            } by {
                if n < last && n < entries.len() {
                    assert(entries[n].0 == headers[firsts[n]].name@);
                }
            }
            assert forall|n: int| 0 <= n < starts.len() implies {
                &&& 0 <= #[trigger] starts[n] < headers.len()
                &&& headers[starts[n]].name@ == all[n].0
                &&& forall|j: int|
                    0 <= j < starts[n] ==> (#[trigger] headers[j]).name@ != all[n].0
            } by {
                if n < entries.len() {
                    assert(entries[n].0 == headers[firsts[n]].name@);
                } else {
                    assert forall|j: int| 0 <= j < last implies (#[trigger] headers[j]).name@
                        != name by {
                        assert(before[j] == headers[j]);
                        law_header_index(entries, before[j].name@);
                    }
                }
            }
            assert forall|n: int, m: int|
                #![trigger starts[n], starts[m]]
                0 <= n < m < starts.len() implies starts[n] < starts[m] by {
                assert(entries[n].0 == headers[firsts[n]].name@);
                if m < entries.len() {
                    assert(firsts[n] < firsts[m]);
                }
            }
            (starts, ends)
        }
    }
}

/// The map of parsed headers has an entry for each name that occurs, and no other: the names stand in
/// the order in which they first occur, at `places.0`, each with the source of its last header, at
/// `places.1`. There is a map only where all headers were understood.
pub proof fn law_map_of_headers(
    parsed: Seq<Result<Header, String>>,
    headers: IndexMap<String, HeaderSource>,
) -> (places: (Seq<int>, Seq<int>))
    requires
        headers_collected(parsed, Ok(headers)),
    ensures
        forall|i: int| 0 <= i < parsed.len() ==> #[trigger] parsed[i] is Ok,
        places.0.len() == header_entries(headers).len(),
        places.1.len() == header_entries(headers).len(),
        forall|n: int|
            0 <= n < places.0.len() ==> {
                &&& 0 <= #[trigger] places.0[n] < parsed.len()
                &&& parsed[places.0[n]]->Ok_0.name@ == header_entries(headers)[n].0
                &&& forall|j: int|
                    0 <= j < places.0[n] ==> (#[trigger] parsed[j])->Ok_0.name@ != header_entries(
                        headers,
                    )[n].0
            },
        forall|n: int|
            0 <= n < places.1.len() ==> {
                &&& 0 <= #[trigger] places.1[n] < parsed.len()
                &&& parsed[places.1[n]]->Ok_0.name@ == header_entries(headers)[n].0
                &&& parsed[places.1[n]]->Ok_0.source == header_entries(headers)[n].1
                &&& forall|j: int|
                    places.1[n] < j < parsed.len() ==> (#[trigger] parsed[j])->Ok_0.name@
                        != header_entries(headers)[n].0
            },
        forall|n: int, m: int|
            #![trigger places.0[n], places.0[m]]
            0 <= n < m < places.0.len() ==> places.0[n] < places.0[m],
        forall|j: int|
            0 <= j < parsed.len() ==> exists|n: int|
                0 <= n < header_entries(headers).len() && #[trigger] header_entries(headers)[n].0
                    == (#[trigger] parsed[j])->Ok_0.name@,
{
    let all = parsed.map_values(|header: Result<Header, String>| header->Ok_0);
    let entries = header_entries(headers);
    let places = lemma_entries_of_headers(all);
    assert forall|n: int| 0 <= n < places.0.len() implies {
        &&& 0 <= #[trigger] places.0[n] < parsed.len()
        &&& parsed[places.0[n]]->Ok_0.name@ == entries[n].0
        &&& forall|j: int|
            0 <= j < places.0[n] ==> (#[trigger] parsed[j])->Ok_0.name@ != entries[n].0
    } by {
        assert forall|j: int| 0 <= j < places.0[n] implies (#[trigger] parsed[j])->Ok_0.name@
            != entries[n].0 by {
            assert(all[j] == parsed[j]->Ok_0);
        }
    }
    assert forall|n: int| 0 <= n < places.1.len() implies {
        &&& 0 <= #[trigger] places.1[n] < parsed.len()
        &&& parsed[places.1[n]]->Ok_0.name@ == entries[n].0
        &&& parsed[places.1[n]]->Ok_0.source == entries[n].1
        &&& forall|j: int|
            places.1[n] < j < parsed.len() ==> (#[trigger] parsed[j])->Ok_0.name@ != entries[n].0
    } by {
        assert forall|j: int| places.1[n] < j < parsed.len() implies (
        #[trigger] parsed[j])->Ok_0.name@ != entries[n].0 by {
            assert(all[j] == parsed[j]->Ok_0);
        }
    }
    assert forall|j: int| 0 <= j < parsed.len() implies exists|n: int|
        0 <= n < entries.len() && #[trigger] entries[n].0 == (
        #[trigger] parsed[j])->Ok_0.name@ by {
        assert(all[j] == parsed[j]->Ok_0);
        law_header_index(entries, all[j].name@);
        let n = header_index(entries, all[j].name@);
        assert(entries[n].0 == parsed[j]->Ok_0.name@);
    }
    places
}

/// Headers without a map have one that was not understood: the first of them, whose index is given
/// back, gives the error its message.
pub proof fn law_header_not_understood(parsed: Seq<Result<Header, String>>, error: ErrorView) -> (k:
    int)
    requires
        headers_collected(parsed, Err(error)),
    ensures
        0 <= k < parsed.len(),
        forall|i: int| 0 <= i < k ==> #[trigger] parsed[i] is Ok,
        parsed[k] matches Err(message) && error == (ErrorView::Internal { message: message@ }),
{
    let failure: Result<IndexMap<String, HeaderSource>, ErrorView> = Err(error);
    assert(failure->Err_0 == error);
    let k = choose|k: int|
        {
            &&& 0 <= k < parsed.len()
            &&& #[trigger] parsed[k] is Err
            &&& forall|i: int| 0 <= i < k ==> #[trigger] parsed[i] is Ok
            &&& error == internal(parsed[k]->Err_0@)
        };
    k
}

/// The source of a header is that of the first entry of its name, whose index is given back; it has
/// none exactly if there is no such entry.
pub proof fn law_source_of_a_header(entries: Seq<(Seq<char>, HeaderSource)>, name: Seq<char>) -> (i:
    int)
    ensures
        source_of(entries, name) matches Some(source) ==> {
            &&& 0 <= i < entries.len()
            &&& entries[i] == (name, source)
            &&& forall|j: int| 0 <= j < i ==> (#[trigger] entries[j]).0 != name
        },
        source_of(entries, name) is None ==> forall|j: int|
            0 <= j < entries.len() ==> (#[trigger] entries[j]).0 != name,
{
    law_header_index(entries, name);
    header_index(entries, name)
}

} // verus!
