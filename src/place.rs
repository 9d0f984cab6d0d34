//! Place lookups: the requests for a place or a place search, and the replay of a search URL.

use vstd::prelude::*;
use vstd::string::{StrSliceExecFns, StringExecFns};

use crate::error::Error;
use crate::escape::{escape, lemma_escape_plain, lemma_unescape_escape, unescape, escape_text, unescape_text};
use crate::params::ParamList;

verus! {

/// The position of the first `c` in `s`, or the length of `s` when there is none.
pub open spec fn index_of(s: Seq<char>, c: char) -> int
    decreases s.len(),
{
    if s.len() == 0 {
        0
    } else if s[0] == c {
        0
    } else {
        1 + index_of(s.drop_first(), c)
    }
}

/// The part of `s` before its first `c` (all of `s` when there is none).
pub open spec fn take_until(s: Seq<char>, c: char) -> Seq<char> {
    s.subrange(0, index_of(s, c))
}

/// The part of `s` after its first `c` (nothing when there is none).
pub open spec fn skip_past(s: Seq<char>, c: char) -> Seq<char> {
    if index_of(s, c) < s.len() {
        s.subrange(index_of(s, c) + 1, s.len() as int)
    } else {
        Seq::empty()
    }
}

/// The `&`-separated `key=value` items of `list` added in order to `acc`, a later key replacing
/// an earlier one. In an item, the key ends at the first `=` and the value at the next one; both
/// are read back with [`unescape`]. `None` when an item has no `=`.
pub open spec fn parse_items(list: Seq<char>, acc: Map<Seq<char>, Seq<char>>) -> Option<
    Map<Seq<char>, Seq<char>>,
>
    decreases list.len() via parse_items_decreases
{
    let item = take_until(list, '&');
    if index_of(item, '=') >= item.len() {
        None
    } else {
        let acc2 = acc.insert(
            unescape(take_until(item, '=')),
            unescape(take_until(skip_past(item, '='), '=')),
        );
        if index_of(list, '&') >= list.len() {
            Some(acc2)
        } else {
            parse_items(skip_past(list, '&'), acc2)
        }
    }
}

#[via_fn]
proof fn parse_items_decreases(list: Seq<char>, acc: Map<Seq<char>, Seq<char>>) {
    lemma_index_of_bounds(list, '&');
}

/// The parameters of the URL `full` issued against the endpoint `base`: `full` must be `base`, a
/// `?`, and a list of items (up to any second `?`), each with a `=`.
pub open spec fn parse_url_spec(base: Seq<char>, full: Seq<char>) -> Option<
    Map<Seq<char>, Seq<char>>,
> {
    if take_until(full, '?') != base || index_of(full, '?') >= full.len() {
        None
    } else {
        parse_items(take_until(skip_past(full, '?'), '?'), Map::empty())
    }
}

proof fn lemma_index_of_bounds(s: Seq<char>, c: char)
    ensures
        0 <= index_of(s, c) <= s.len(),
        index_of(s, c) < s.len() ==> s[index_of(s, c)] == c,
        forall|j: int| 0 <= j < index_of(s, c) ==> s[j] != c,
    decreases s.len(),
{
    if s.len() > 0 && s[0] != c {
        lemma_index_of_bounds(s.drop_first(), c);
        assert forall|j: int| 0 <= j < index_of(s, c) implies s[j] != c by {
            if j > 0 {
                assert(s[j] == s.drop_first()[j - 1]);
            }
        }
    }
}

proof fn lemma_index_of_at(s: Seq<char>, c: char, i: int)
    requires
        0 <= i <= s.len(),
        forall|j: int| 0 <= j < i ==> s[j] != c,
        i == s.len() || s[i] == c,
    ensures
        index_of(s, c) == i,
    decreases i,
{
    if i > 0 {
        let t = s.drop_first();
        assert forall|j: int| 0 <= j < i - 1 implies t[j] != c by {
            assert(t[j] == s[j + 1]);
        }
        lemma_index_of_at(t, c, i - 1);
    }
}

/// The position of the first `c` in `s`, or its length in characters when there is none.
fn find_char(s: &str, c: char) -> (r: usize)
    ensures
        r == index_of(s@, c),
{
    let n = s.unicode_len();
    let mut i: usize = 0;
    while i < n
        invariant
            n == s@.len(),
            i <= n,
            forall|j: int| 0 <= j < i ==> s@[j] != c,
        decreases n - i,
    {
        if s.get_char(i) == c {
            proof {
                lemma_index_of_at(s@, c, i as int);
            }
            return i;
        }
        i = i + 1;
    }
    proof {
        lemma_index_of_at(s@, c, i as int);
    }
    i
}

/// Read the parameters of the URL `full`, issued against the endpoint `base`, for replaying the
/// same call. Fails with `BadUrl` when `full` does not start with `base` and a `?`, or when one of
/// its items has no `=`.
pub fn parse_url(base: &str, full: &str) -> (r: Result<ParamList, Error>)
    ensures
        match parse_url_spec(base@, full@) {
            Some(m) => r is Ok && r->Ok_0.wf() && r->Ok_0.view() == m,
            None => r == Err::<ParamList, Error>(Error::BadUrl),
        },
{
    let n = full.unicode_len();
    let q = find_char(full, '?');
    proof {
        lemma_index_of_bounds(full@, '?');
    }
    let base_part = full.substring_char(0, q).to_owned();
    let base_owned = base.to_owned();
    if !(base_part == base_owned) || q >= n {
        proof {
            assert(base_part@ == take_until(full@, '?'));
        }
        return Err(Error::BadUrl);
    }
    let tail = full.substring_char(q + 1, n);
    let tail_len = tail.unicode_len();
    let q2 = find_char(tail, '?');
    proof {
        lemma_index_of_bounds(tail@, '?');
    }
    let list = tail.substring_char(0, q2);
    proof {
        assert(tail@ == skip_past(full@, '?'));
        assert(list@ == take_until(skip_past(full@, '?'), '?'));
    }
    parse_list(list)
}

/// Read `&`-separated `key=value` items into a parameter list.
fn parse_list(list: &str) -> (r: Result<ParamList, Error>)
    ensures
        match parse_items(list@, Map::empty()) {
            Some(m) => r is Ok && r->Ok_0.wf() && r->Ok_0.view() == m,
            None => r == Err::<ParamList, Error>(Error::BadUrl),
        },
{
    let mut acc = ParamList::new();
    let mut rest: &str = list;
    loop
        invariant
            acc.wf(),
            parse_items(list@, Map::empty()) == parse_items(rest@, acc.view()),
        decreases rest@.len(),
    {
        let rest_len = rest.unicode_len();
        let amp = find_char(rest, '&');
        proof {
            lemma_index_of_bounds(rest@, '&');
        }
        let item = rest.substring_char(0, amp);
        let item_len = item.unicode_len();
        let eq = find_char(item, '=');
        proof {
            lemma_index_of_bounds(item@, '=');
        }
        if eq >= item_len {
            return Err(Error::BadUrl);
        }
        let key = item.substring_char(0, eq);
        let after_eq = item.substring_char(eq + 1, item_len);
        let v_end = find_char(after_eq, '=');
        proof {
            lemma_index_of_bounds(after_eq@, '=');
            assert(after_eq@ == skip_past(item@, '='));
        }
        let value = after_eq.substring_char(0, v_end);
        acc.add_param(unescape_text(key), unescape_text(value));
        if amp >= rest_len {
            return Ok(acc);
        }
        let next = rest.substring_char(amp + 1, rest_len);
        proof {
            assert(next@ == skip_past(rest@, '&'));
        }
        rest = next;
    }
}

/// One parameter written as `key=value`, both escaped.
pub open spec fn item_text(e: (String, String)) -> Seq<char> {
    escape(e.0@) + seq!['='] + escape(e.1@)
}

/// Parameters written as `&`-separated `key=value` items, in order.
pub open spec fn join_items(entries: Seq<(String, String)>) -> Seq<char>
    decreases entries.len(),
{
    if entries.len() == 0 {
        Seq::empty()
    } else if entries.len() == 1 {
        item_text(entries[0])
    } else {
        item_text(entries[0]) + seq!['&'] + join_items(entries.drop_first())
    }
}

/// The URL of a call to the endpoint `base` with the parameters `entries`.
pub open spec fn url_of(base: Seq<char>, entries: Seq<(String, String)>) -> Seq<char> {
    base + seq!['?'] + join_items(entries)
}

/// Whether `s` holds none of the characters that separate the parts of a query URL.
pub open spec fn plain_text(s: Seq<char>) -> bool {
    forall|i: int| 0 <= i < s.len() ==> s[i] != '?' && s[i] != '&' && s[i] != '='
}

/// The map `acc` with the parameters `entries` set in order.
pub open spec fn insert_all(acc: Map<Seq<char>, Seq<char>>, entries: Seq<(String, String)>) -> Map<
    Seq<char>,
    Seq<char>,
>
    decreases entries.len(),
{
    if entries.len() == 0 {
        acc
    } else {
        insert_all(acc.insert(entries[0].0@, entries[0].1@), entries.drop_first())
    }
}

proof fn lemma_join_push(e: Seq<(String, String)>, i: int)
    requires
        1 <= i < e.len(),
    ensures
        join_items(e.subrange(0, i + 1)) == join_items(e.subrange(0, i)) + seq!['&'] + item_text(
            e[i],
        ),
    decreases i,
{
    let t = e.drop_first();
    assert(e.subrange(0, i + 1).drop_first() =~= t.subrange(0, i));
    if i == 1 {
        assert(e.subrange(0, 1).len() == 1);
        assert(t.subrange(0, 1).len() == 1);
        assert(join_items(e.subrange(0, i + 1)) =~= join_items(e.subrange(0, i)) + seq!['&']
            + item_text(e[i]));
    } else {
        lemma_join_push(t, i - 1);
        assert(e.subrange(0, i).drop_first() =~= t.subrange(0, i - 1));
        assert(e.subrange(0, i + 1)[0] == e[0]);
        assert(e.subrange(0, i)[0] == e[0]);
        assert(t[i - 1] == e[i]);
        assert(join_items(e.subrange(0, i + 1)) == item_text(e[0]) + seq!['&'] + join_items(
            t.subrange(0, i),
        ));
        assert(join_items(e.subrange(0, i)) == item_text(e[0]) + seq!['&'] + join_items(
            t.subrange(0, i - 1),
        ));
        assert(join_items(e.subrange(0, i + 1)) =~= join_items(e.subrange(0, i)) + seq!['&']
            + item_text(e[i]));
    }
}

proof fn lemma_index_after_plain(a: Seq<char>, c: char, b: Seq<char>)
    requires
        forall|i: int| 0 <= i < a.len() ==> a[i] != c,
    ensures
        index_of(a + seq![c] + b, c) == a.len(),
        index_of(a, c) == a.len(),
        take_until(a + seq![c] + b, c) == a,
        skip_past(a + seq![c] + b, c) == b,
        take_until(a, c) == a,
{
    let s = a + seq![c] + b;
    assert forall|j: int| 0 <= j < a.len() implies s[j] != c by {
        assert(s[j] == a[j]);
    }
    lemma_index_of_at(s, c, a.len() as int);
    lemma_index_of_at(a, c, a.len() as int);
    assert(s.subrange(0, a.len() as int) =~= a);
    assert(s.subrange(a.len() as int + 1, s.len() as int) =~= b);
    assert(a.subrange(0, a.len() as int) =~= a);
}

proof fn lemma_join_plain(e: Seq<(String, String)>)
    ensures
        forall|i: int| 0 <= i < join_items(e).len() ==> join_items(e)[i] != '?',
    decreases e.len(),
{
    if e.len() >= 1 {
        let k = escape(e[0].0@);
        let v = escape(e[0].1@);
        lemma_escape_plain(e[0].0@);
        lemma_escape_plain(e[0].1@);
        let it = item_text(e[0]);
        assert forall|i: int| 0 <= i < it.len() implies it[i] != '?' by {
            if i < k.len() {
                assert(it[i] == k[i]);
            } else if i > k.len() {
                assert(it[i] == v[i - k.len() - 1]);
            } else {
                assert(it[i] == '=');
            }
        }
        if e.len() > 1 {
            let t = e.drop_first();
            lemma_join_plain(t);
            let whole = join_items(e);
            assert(whole == it + seq!['&'] + join_items(t));
            assert forall|i: int| 0 <= i < whole.len() implies whole[i] != '?' by {
                if i < it.len() {
                    assert(whole[i] == it[i]);
                } else if i > it.len() {
                    assert(whole[i] == join_items(t)[i - it.len() - 1]);
                }
            }
        }
    }
}

proof fn lemma_parse_join(e: Seq<(String, String)>, acc: Map<Seq<char>, Seq<char>>)
    requires
        e.len() >= 1,
    ensures
        parse_items(join_items(e), acc) == Some(insert_all(acc, e)),
    decreases e.len(),
{
    let k = escape(e[0].0@);
    let v = escape(e[0].1@);
    let it = item_text(e[0]);
    lemma_escape_plain(e[0].0@);
    lemma_escape_plain(e[0].1@);
    lemma_unescape_escape(e[0].0@);
    lemma_unescape_escape(e[0].1@);
    assert(plain_text(k) && plain_text(v));
    assert forall|i: int| 0 <= i < it.len() implies it[i] != '&' by {
        if i < k.len() {
            assert(it[i] == k[i]);
        } else if i > k.len() {
            assert(it[i] == v[i - k.len() - 1]);
        }
    }
    lemma_index_after_plain(k, '=', v);
    lemma_index_after_plain(v, '=', Seq::empty());
    assert(v + seq!['='] + Seq::<char>::empty() =~= v + seq!['=']);
    lemma_index_of_at(v, '=', v.len() as int);
    assert(v.subrange(0, v.len() as int) =~= v);
    let t = e.drop_first();
    if e.len() == 1 {
        lemma_index_of_at(it, '&', it.len() as int);
        assert(it.subrange(0, it.len() as int) =~= it);
        assert(insert_all(acc.insert(e[0].0@, e[0].1@), t) == acc.insert(e[0].0@, e[0].1@));
    } else {
        lemma_index_after_plain(it, '&', join_items(t));
        lemma_parse_join(t, acc.insert(e[0].0@, e[0].1@));
    }
}

proof fn lemma_insert_all_last(acc: Map<Seq<char>, Seq<char>>, e: Seq<(String, String)>)
    requires
        e.len() >= 1,
    ensures
        insert_all(acc, e) == insert_all(acc, e.drop_last()).insert(e.last().0@, e.last().1@),
    decreases e.len(),
{
    if e.len() > 1 {
        let t = e.drop_first();
        lemma_insert_all_last(acc.insert(e[0].0@, e[0].1@), t);
        assert(t.drop_last() =~= e.drop_last().drop_first());
        assert(t.last() == e.last());
        assert(e.drop_last()[0] == e[0]);
        assert(insert_all(acc, e.drop_last()) == insert_all(
            acc.insert(e[0].0@, e[0].1@),
            e.drop_last().drop_first(),
        ));
    } else {
        assert(e.drop_last().len() == 0);
        assert(e.drop_first().len() == 0);
        assert(e.last() == e[0]);
        assert(insert_all(acc.insert(e[0].0@, e[0].1@), e.drop_first()) == acc.insert(
            e[0].0@,
            e[0].1@,
        ));
    }
}

proof fn lemma_insert_all_entries(e: Seq<(String, String)>)
    ensures
        insert_all(Map::empty(), e) == crate::params::entries_map(e),
    decreases e.len(),
{
    if e.len() >= 1 {
        lemma_insert_all_last(Map::empty(), e);
        lemma_insert_all_entries(e.drop_last());
    }
}

/// Replaying a URL built from parameters gives back the same parameters: parsing the URL of a
/// call to `base` with a non-empty parameter list yields exactly that list's mapping, whatever
/// its keys and values hold, provided the endpoint `base` holds no `?`, `&` or `=`.
pub proof fn lemma_url_round_trip(base: Seq<char>, params: ParamList)
    requires
        params.wf(),
        params.entries().len() >= 1,
        plain_text(base),
    ensures
        parse_url_spec(base, url_of(base, params.entries())) == Some(params.view()),
{
    let e = params.entries();
    let j = join_items(e);
    assert forall|i: int| 0 <= i < base.len() implies base[i] != '?' by {}
    lemma_index_after_plain(base, '?', j);
    lemma_join_plain(e);
    lemma_index_of_at(j, '?', j.len() as int);
    assert(j.subrange(0, j.len() as int) =~= j);
    lemma_parse_join(e, Map::empty());
    lemma_insert_all_entries(e);
    crate::params::lemma_view_is_entries_map(params);
}

/// The URL of a call to the endpoint `base` with the parameters given.
pub fn request_url(base: &str, params: &ParamList) -> (r: String)
    ensures
        r@ == url_of(base@, params.entries()),
{
    let mut url = base.to_owned();
    proof {
        reveal_strlit("?");
        reveal_strlit("&");
        reveal_strlit("=");
    }
    url.append("?");
    let ghost start = url@;
    let n = params.len();
    let mut i: usize = 0;
    while i < n
        invariant
            n == params.entries().len(),
            i <= n,
            start == base@ + seq!['?'],
            url@ == start + join_items(params.entries().subrange(0, i as int)),
        decreases n - i,
    {
        let (k, v) = params.entry(i);
        let ghost before = url@;
        if i > 0 {
            url.append("&");
        }
        let ek = escape_text(k);
        let ev = escape_text(v);
        url.append(ek.as_str());
        url.append("=");
        url.append(ev.as_str());
        proof {
            reveal_strlit("&");
            reveal_strlit("=");
            let e = params.entries();
            if i > 0 {
                lemma_join_push(e, i as int);
            } else {
                assert(e.subrange(0, 1).len() == 1);
                assert(e.subrange(0, 0).len() == 0);
            }
            assert(item_text(e[i as int]) == escape(e[i as int].0@) + seq!['='] + escape(
                e[i as int].1@,
            ));
            if i > 0 {
                assert(url@ =~= before + seq!['&'] + item_text(e[i as int]));
            } else {
                assert(url@ =~= before + item_text(e[i as int]));
                assert(join_items(e.subrange(0, 1)) == item_text(e.subrange(0, 1)[0]));
                assert(e.subrange(0, 1)[0] == e[0]);
            }
            assert(url@ =~= start + join_items(e.subrange(0, i + 1)));
        }
        i = i + 1;
    }
    proof {
        assert(params.entries().subrange(0, n as int) =~= params.entries());
    }
    url
}

/// The endpoint stem under which single places are looked up.
pub const SHOW_STEM: &'static str = "https://api.twitter.com/1.1/geo/id";

/// The endpoint of place searches.
pub const SEARCH: &'static str = "https://api.twitter.com/1.1/geo/search.json";

/// The endpoint of reverse-geocode searches.
pub const REVERSE_GEOCODE: &'static str = "https://api.twitter.com/1.1/geo/reverse_geocode.json";

/// The URL that loads the place with the given ID.
pub fn show(id: &str) -> (r: String)
    ensures
        r@ == SHOW_STEM@ + seq!['/'] + id@ + ".json"@,
{
    proof {
        reveal_strlit("/");
    }
    let mut url = SHOW_STEM.to_owned();
    url.append("/");
    url.append(id);
    url.append(".json");
    url
}

/// What a place search looks for.
#[derive(Debug, Clone)]
pub enum PlaceQuery {
    /// A point, as decimal latitude and longitude.
    LatLon(String, String),
    /// A free-text query.
    Query(String),
    /// An IP address.
    IPAddress(String),
}

/// The granularity of places a search returns.
#[derive(Debug, Clone, Copy, PartialEq, Eq, Structural)]
pub enum PlaceType {
    /// A point of interest.
    Point,
    /// A neighborhood.
    Neighborhood,
    /// A city.
    City,
    /// An administrative area, such as a state.
    Admin,
    /// A country.
    Country,
}

/// The name by which the service knows a place type.
pub open spec fn place_type_name(t: PlaceType) -> Seq<char> {
    match t {
        PlaceType::Point => "poi"@,
        PlaceType::Neighborhood => "neighborhood"@,
        PlaceType::City => "city"@,
        PlaceType::Admin => "admin"@,
        PlaceType::Country => "country"@,
    }
}

impl PlaceType {
    /// The name by which the service knows this place type.
    pub fn name(&self) -> (r: &'static str)
        ensures
            r@ == place_type_name(*self),
    {
        match self {
            PlaceType::Point => "poi",
            PlaceType::Neighborhood => "neighborhood",
            PlaceType::City => "city",
            PlaceType::Admin => "admin",
            PlaceType::Country => "country",
        }
    }
}

/// A place search being built.
#[derive(Debug, Clone)]
pub struct SearchBuilder {
    /// What the search looks for.
    pub query: PlaceQuery,
    /// The granularity of the places returned, if restricted.
    pub granularity: Option<PlaceType>,
    /// The ID of a place that results must lie within, if restricted.
    pub contained_within: Option<String>,
}

/// The parameters that the query part of a search sends.
pub open spec fn query_params(q: PlaceQuery) -> Map<Seq<char>, Seq<char>> {
    match q {
        PlaceQuery::LatLon(lat, lon) => Map::empty().insert("lat"@, lat@).insert("long"@, lon@),
        PlaceQuery::Query(text) => Map::empty().insert("query"@, text@),
        PlaceQuery::IPAddress(ip) => Map::empty().insert("ip"@, ip@),
    }
}

impl SearchBuilder {
    /// The parameters the search sends.
    pub open spec fn params_spec(&self) -> Map<Seq<char>, Seq<char>> {
        let base = query_params(self.query);
        let with_granularity = match self.granularity {
            Some(g) => base.insert("granularity"@, place_type_name(g)),
            None => base,
        };
        match self.contained_within {
            Some(id) => with_granularity.insert("contained_within"@, id@),
            None => with_granularity,
        }
    }

    /// A search for `query`, with no further restriction.
    pub fn new(query: PlaceQuery) -> (r: SearchBuilder)
        ensures
            r.query == query,
            r.granularity is None,
            r.contained_within is None,
    {
        SearchBuilder { query, granularity: None, contained_within: None }
    }

    /// Restrict the granularity of the places returned.
    pub fn granularity(self, granularity: PlaceType) -> (r: SearchBuilder)
        ensures
            r.query == self.query,
            r.granularity == Some(granularity),
            r.contained_within == self.contained_within,
    {
        SearchBuilder { granularity: Some(granularity), ..self }
    }

    /// Restrict the results to places within the place with the given ID.
    pub fn contained_within(self, place_id: String) -> (r: SearchBuilder)
        ensures
            r.query == self.query,
            r.granularity == self.granularity,
            r.contained_within == Some(place_id),
    {
        SearchBuilder { contained_within: Some(place_id), ..self }
    }

    /// The parameters the search sends; there is at least one.
    pub fn params(&self) -> (r: ParamList)
        ensures
            r.wf(),
            r.entries().len() >= 1,
            r.view() == self.params_spec(),
    {
        let mut p = ParamList::new();
        match &self.query {
            PlaceQuery::LatLon(lat, lon) => {
                p.add_param("lat".to_owned(), lat.clone());
                p.add_param("long".to_owned(), lon.clone());
            },
            PlaceQuery::Query(text) => {
                p.add_param("query".to_owned(), text.clone());
            },
            PlaceQuery::IPAddress(ip) => {
                p.add_param("ip".to_owned(), ip.clone());
            },
        }
        if let Some(g) = &self.granularity {
            p.add_param("granularity".to_owned(), g.name().to_owned());
        }
        if let Some(id) = &self.contained_within {
            p.add_param("contained_within".to_owned(), id.clone());
        }
        p
    }

    /// The URL of the search.
    pub fn url(&self) -> (r: String)
        ensures
            exists|p: ParamList|
                p.wf() && p.entries().len() >= 1 && p.view() == self.params_spec() && r@ == url_of(
                    SEARCH@,
                    p.entries(),
                ),
    {
        let p = self.params();
        request_url(SEARCH, &p)
    }
}

/// Begin a place search by a text query.
pub fn search_query(query: &str) -> (r: SearchBuilder)
    ensures
        r.query is Query && r.query->Query_0@ == query@,
        r.granularity is None,
        r.contained_within is None,
{
    SearchBuilder::new(PlaceQuery::Query(query.to_owned()))
}

/// Begin a place search by IP address.
pub fn search_ip(query: &str) -> (r: SearchBuilder)
    ensures
        r.query is IPAddress && r.query->IPAddress_0@ == query@,
        r.granularity is None,
        r.contained_within is None,
{
    SearchBuilder::new(PlaceQuery::IPAddress(query.to_owned()))
}

/// The parameters of a search URL given with earlier results, for repeating that search. Fails
/// with `BadUrl` when the URL is not a search URL.
pub fn search_url(url: &str) -> (r: Result<ParamList, Error>)
    ensures
        match parse_url_spec(SEARCH@, url@) {
            Some(m) => r is Ok && r->Ok_0.wf() && r->Ok_0.view() == m,
            None => r == Err::<ParamList, Error>(Error::BadUrl),
        },
{
    parse_url(SEARCH, url)
}

/// The parameters of a reverse-geocode URL given with earlier results, for repeating that
/// search. Fails with `BadUrl` when the URL is not a reverse-geocode URL.
pub fn reverse_geocode_url(url: &str) -> (r: Result<ParamList, Error>)
    ensures
        match parse_url_spec(REVERSE_GEOCODE@, url@) {
            Some(m) => r is Ok && r->Ok_0.wf() && r->Ok_0.view() == m,
            None => r == Err::<ParamList, Error>(Error::BadUrl),
        },
{
    parse_url(REVERSE_GEOCODE, url)
}

/// Replaying the URL of a place search gives back the search's parameters, whatever its texts
/// hold.
pub proof fn lemma_search_round_trip(b: SearchBuilder, p: ParamList)
    requires
        p.wf(),
        p.entries().len() >= 1,
        p.view() == b.params_spec(),
    ensures
        parse_url_spec(SEARCH@, url_of(SEARCH@, p.entries())) == Some(b.params_spec()),
{
    reveal_strlit("https://api.twitter.com/1.1/geo/search.json");
    assert(plain_text(SEARCH@));
    lemma_url_round_trip(SEARCH@, p);
}

} // verus!
