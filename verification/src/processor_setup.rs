//! The diagnostics service's log level request: from the request's keys and
//! values it works out the log filter directives to install, or the error to
//! answer.
//!
//! A request holds "level" (required), and optionally "target",
//! "directives" (comma-separated), "span_events" and any number of keys that
//! contain "layer_", whose values are further directives. Parsing the
//! directives and installing the filter are done by the runtime.
use vstd::prelude::*;
use crate::strmap::StrMap;
use tracing_subscriber::filter::Directive;
use crate::text::{
    chars_of, lemma_lex_asymmetric, lemma_lex_total, lemma_lex_transitive, lex_less, lex_lt,
    lowercase_of, lowercased, string_from_chars, trim_of, trimmed, starts_unspaced,
    lemma_trim_starts_unspaced, is_ascii_text, ascii_lowered,
};

verus! {

/// The levels a request may ask for.
pub open spec fn is_log_level(s: Seq<char>) -> bool {
    s == "trace"@ || s == "debug"@ || s == "info"@ || s == "warn"@ || s == "error"@
}

/// Whether `s` is one of the levels a request may ask for.
pub fn log_level_known(s: &String) -> (b: bool)
    ensures
        b == is_log_level(s@),
{
    *s == String::from_str("trace") || *s == String::from_str("debug") || *s == String::from_str("info")
        || *s == String::from_str("warn") || *s == String::from_str("error")
}

/// The pieces of `s` between commas, in order (as `str::split(',')` gives
/// them): no comma gives one piece, the whole string.
pub open spec fn comma_pieces(s: Seq<char>) -> Seq<Seq<char>>
    decreases s.len(),
{
    if s.len() == 0 {
        seq![Seq::empty()]
    } else {
        let p = comma_pieces(s.drop_last());
        if s.last() == ',' {
            p.push(Seq::empty())
        } else {
            p.update(p.len() - 1, p.last().push(s.last()))
        }
    }
}

proof fn lemma_comma_pieces_nonempty(s: Seq<char>)
    ensures
        comma_pieces(s).len() > 0,
    decreases s.len(),
{
    if s.len() > 0 {
        lemma_comma_pieces_nonempty(s.drop_last());
    }
}

/// The pieces, each trimmed, without those that are blank.
pub open spec fn kept_trimmed(pieces: Seq<Seq<char>>) -> Seq<Seq<char>>
    decreases pieces.len(),
{
    if pieces.len() == 0 {
        Seq::empty()
    } else {
        let rest = kept_trimmed(pieces.drop_last());
        let t = trim_of(pieces.last());
        if t.len() > 0 {
            rest.push(t)
        } else {
            rest
        }
    }
}

/// The extra directives of a comma-separated list: its pieces, trimmed,
/// blank ones left out.
pub open spec fn extra_directives(s: Seq<char>) -> Seq<Seq<char>> {
    kept_trimmed(comma_pieces(s))
}

/// The views of a vector of strings.
pub open spec fn string_views(v: Seq<String>) -> Seq<Seq<char>> {
    v.map_values(|x: String| x@)
}

/// The pieces of `s` between commas.
fn split_commas(s: &String) -> (pieces: Vec<String>)
    ensures
        string_views(pieces@) == comma_pieces(s@),
{
    let cs = chars_of(s);
    let mut pieces: Vec<String> = Vec::new();
    let mut current: Vec<char> = Vec::new();
    for i in 0..cs.len()
        invariant
            cs@ == s@,
            string_views(pieces@).push(current@) == comma_pieces(s@.take(i as int)),
    {
        proof {
            assert(s@.take(i + 1).drop_last() =~= s@.take(i as int));
            assert(s@.take(i + 1).last() == cs@[i as int]);
            lemma_comma_pieces_nonempty(s@.take(i as int));
        }
        let c = cs[i];
        if c == ',' {
            let piece = string_from_chars(&current);
            let ghost before = pieces@;
            pieces.push(piece);
            current = Vec::new();
            proof {
                assert(string_views(pieces@) =~= string_views(before).push(piece@));
                assert(string_views(pieces@).push(current@) =~= comma_pieces(s@.take(i + 1)));
            }
        } else {
            current.push(c);
            proof {
                let p = comma_pieces(s@.take(i as int));
                assert(string_views(pieces@).push(current@) =~= p.update(p.len() - 1, p.last().push(c)));
            }
        }
    }
    proof {
        assert(s@.take(cs.len() as int) =~= s@);
    }
    let last = string_from_chars(&current);
    let ghost before = pieces@;
    pieces.push(last);
    proof {
        assert(string_views(pieces@) =~= string_views(before).push(last@));
    }
    pieces
}

/// Whether a string is empty.
fn is_blank(s: &String) -> (b: bool)
    ensures
        b == (s@.len() == 0),
{
    s.as_str().unicode_len() == 0
}

/// The extra directives of the comma-separated list `s`.
pub fn extra_directive_list(s: &String) -> (ds: Vec<String>)
    ensures
        string_views(ds@) == extra_directives(s@),
{
    let pieces = split_commas(s);
    let mut ds: Vec<String> = Vec::new();
    for i in 0..pieces.len()
        invariant
            string_views(pieces@) == comma_pieces(s@),
            string_views(ds@) == kept_trimmed(string_views(pieces@).take(i as int)),
    {
        let t = trimmed(pieces[i].as_str());
        proof {
            let ps = string_views(pieces@);
            assert(ps.take(i + 1).drop_last() =~= ps.take(i as int));
            assert(ps.take(i + 1).last() == pieces@[i as int]@);
        }
        if !is_blank(&t) {
            let ghost before = ds@;
            ds.push(t);
            proof {
                assert(string_views(ds@) =~= string_views(before).push(t@));
            }
        }
    }
    proof {
        assert(string_views(pieces@).take(pieces.len() as int) =~= string_views(pieces@));
    }
    ds
}

/// The marker that makes a request key a layer key: "layer_".
pub open spec fn layer_marker() -> Seq<char> {
    seq!['l', 'a', 'y', 'e', 'r', '_']
}

/// The marker occurs in `k` at position `i`.
pub open spec fn marker_at(k: Seq<char>, i: int) -> bool {
    0 <= i && i + 6 <= k.len() && k.subrange(i, i + 6) == layer_marker()
}

/// What follows the first occurrence of the marker in `k` (as
/// `str::split_once` gives it), if the marker occurs.
pub open spec fn layer_rest(k: Seq<char>) -> Option<Seq<char>> {
    if exists|i: int| #[trigger] marker_at(k, i) {
        let i = choose|i: int| #[trigger] marker_at(k, i) && forall|j: int| 0 <= j < i ==> !marker_at(k, j);
        Some(k.subrange(i + 6, k.len() as int))
    } else {
        None
    }
}

/// What follows the first "layer_" in `k`, if any.
fn layer_rest_of(k: &Vec<char>) -> (r: Option<Vec<char>>)
    ensures
        match r {
            Some(rest) => layer_rest(k@) == Some(rest@),
            None => layer_rest(k@) is None,
        },
{
    if k.len() < 6 {
        return None;
    }
    let last = k.len() - 6;
    let mut i: usize = 0;
    while i <= last
        invariant
            last + 6 == k.len(),
            forall|j: int| 0 <= j < i ==> !marker_at(k@, j),
        decreases last + 1 - i,
    {
        if k[i] == 'l' && k[i + 1] == 'a' && k[i + 2] == 'y' && k[i + 3] == 'e' && k[i + 4] == 'r' && k[i + 5] == '_' {
            proof {
                assert(k@.subrange(i as int, i + 6) =~= layer_marker());
                assert(marker_at(k@, i as int));
                let c = choose|c: int| #[trigger] marker_at(k@, c) && forall|j: int| 0 <= j < c ==> !marker_at(k@, j);
                assert(c == i as int) by {
                    if c > i {
                        assert(!marker_at(k@, i as int));
                    }
                }
            }
            let mut rest: Vec<char> = Vec::new();
            let mut j = i + 6;
            while j < k.len()
                invariant
                    i + 6 <= j <= k.len(),
                    rest@ == k@.subrange(i + 6, j as int),
                decreases k.len() - j,
            {
                rest.push(k[j]);
                j += 1;
                proof {
                    assert(rest@ =~= k@.subrange(i + 6, j as int));
                }
            }
            return Some(rest);
        }
        proof {
            if marker_at(k@, i as int) {
                let s = k@.subrange(i as int, i + 6);
                assert(s[0] == k@[i as int] && s[1] == k@[i + 1] && s[2] == k@[i + 2]);
                assert(s[3] == k@[i + 3] && s[4] == k@[i + 4] && s[5] == k@[i + 5]);
            }
        }
        i += 1;
    }
    proof {
        assert forall|j: int| !#[trigger] marker_at(k@, j) by {
            if 0 <= j && j + 6 <= k@.len() {
                assert(j < i);
            }
        }
    }
    None
}

/// A request entry that is a layer filter: its key holds "layer_" followed by
/// something that is not blank, and its value is not blank.
#[verifier::opaque]
pub open spec fn is_layer_entry(k: Seq<char>, v: Seq<char>) -> bool {
    &&& layer_rest(k) is Some
    &&& trim_of(layer_rest(k)->0).len() > 0
    &&& trim_of(v).len() > 0
}

/// The keys of the request's layer filters.
pub open spec fn layer_keys(params: Map<Seq<char>, String>) -> Set<Seq<char>> {
    params.dom().filter(|k: Seq<char>| is_layer_entry(k, params[k]@))
}

/// The keys of a list of (key, value) entries.
pub open spec fn entry_keys(fs: Seq<(String, String)>) -> Seq<Seq<char>> {
    fs.map_values(|e: (String, String)| e.0@)
}

/// Each key comes strictly before the next, in the order of `String`.
pub open spec fn sorted_strictly(ks: Seq<Seq<char>>) -> bool {
    forall|i: int, j: int| 0 <= i < j < ks.len() ==> lex_lt(#[trigger] ks[i], #[trigger] ks[j])
}

/// Where `k` goes among entries sorted by key: after every key it does not
/// come before, at the first key it comes before.
fn sorted_position(fs: &Vec<(String, String)>, kc: &Vec<char>) -> (p: usize)
    ensures
        p <= fs@.len(),
        forall|i: int| 0 <= i < p ==> !lex_lt(kc@, #[trigger] entry_keys(fs@)[i]),
        p < fs@.len() ==> lex_lt(kc@, entry_keys(fs@)[p as int]),
{
    let mut p: usize = 0;
    while p < fs.len()
        invariant
            p <= fs.len(),
            forall|i: int| 0 <= i < p ==> !lex_lt(kc@, #[trigger] entry_keys(fs@)[i]),
        decreases fs.len() - p,
    {
        let ec = chars_of(&fs[p].0);
        if lex_less(kc, &ec) {
            return p;
        }
        p += 1;
    }
    p
}

/// What inserting an entry does to the keys and entries.
proof fn lemma_insert_entry(before: Seq<(String, String)>, p: int, e: (String, String))
    requires
        0 <= p <= before.len(),
    ensures
        entry_keys(before.insert(p, e)) == entry_keys(before).insert(p, e.0@),
        entry_keys(before.insert(p, e)).to_set() == entry_keys(before).to_set().insert(e.0@),
        forall|j: int| 0 <= j < p ==> before.insert(p, e)[j] == before[j],
        before.insert(p, e)[p] == e,
        forall|j: int| p < j <= before.len() ==> before.insert(p, e)[j] == before[j - 1],
{
    before.insert_ensures(p, e);
    let ks = entry_keys(before);
    let nks = entry_keys(before.insert(p, e));
    assert(nks =~= ks.insert(p, e.0@));
    ks.insert_ensures(p, e.0@);
    assert forall|x: Seq<char>| nks.contains(x) <==> (ks.contains(x) || x == e.0@) by {
        if nks.contains(x) {
            let j = choose|j: int| 0 <= j < nks.len() && nks[j] == x;
            if j < p {
                assert(ks[j] == x);
            } else if j > p {
                assert(ks[j - 1] == x);
            }
        }
        if ks.contains(x) {
            let j = choose|j: int| 0 <= j < ks.len() && ks[j] == x;
            if j < p {
                assert(nks[j] == x);
            } else {
                assert(nks[j + 1] == x);
            }
        }
        if x == e.0@ {
            assert(nks[p] == x);
        }
    }
    assert(nks.to_set() =~= ks.to_set().insert(e.0@));
}

/// Inserts (`k`, `v`) into entries sorted by key, where `k` is not yet.
fn insert_sorted(fs: &mut Vec<(String, String)>, k: String, v: String)
    requires
        sorted_strictly(entry_keys(old(fs)@)),
        !entry_keys(old(fs)@).contains(k@),
    ensures
        sorted_strictly(entry_keys(final(fs)@)),
        exists|p: int| 0 <= p <= old(fs)@.len() && final(fs)@ == old(fs)@.insert(p, (k, v)),
{
    let kc = chars_of(&k);
    let p = sorted_position(fs, &kc);
    let ghost old_fs = fs@;
    let ghost ks = entry_keys(old_fs);
    proof {
        assert forall|i: int| 0 <= i < p implies lex_lt(#[trigger] ks[i], k@) by {
            assert(ks[i] != k@) by {
                assert(ks.contains(ks[i]));
            }
            lemma_lex_total(ks[i], k@);
        }
    }
    fs.insert(p, (k, v));
    proof {
        assert(fs@ =~= old_fs.insert(p as int, (k, v)));
        lemma_insert_entry(old_fs, p as int, (k, v));
        let nks = entry_keys(fs@);
        ks.insert_ensures(p as int, k@);
        assert forall|i: int, j: int| 0 <= i < j < nks.len() implies lex_lt(#[trigger] nks[i], #[trigger] nks[j]) by {
            if j < p {
                assert(nks[i] == ks[i] && nks[j] == ks[j]);
            } else if j == p {
                assert(nks[i] == ks[i]);
            } else if i < p {
                assert(nks[i] == ks[i] && nks[j] == ks[j - 1]);
                if j - 1 > p {
                    lemma_lex_transitive(k@, ks[p as int], ks[j - 1]);
                }
                lemma_lex_transitive(ks[i], k@, ks[j - 1]);
            } else if i == p {
                assert(nks[j] == ks[j - 1]);
                if j - 1 > p {
                    lemma_lex_transitive(k@, ks[p as int], ks[j - 1]);
                }
            } else {
                assert(nks[i] == ks[i - 1] && nks[j] == ks[j - 1]);
            }
        }
    }
}

/// The layer keys among the first keys of the enumeration.
pub open spec fn layer_keys_among(params: Map<Seq<char>, String>, ks: Seq<Seq<char>>) -> Set<Seq<char>> {
    ks.to_set().filter(|k: Seq<char>| is_layer_entry(k, params[k]@))
}

/// One more key considered.
proof fn lemma_layer_keys_step(params: Map<Seq<char>, String>, ks: Seq<Seq<char>>, i: int)
    requires
        0 <= i < ks.len(),
    ensures
        is_layer_entry(ks[i], params[ks[i]]@) ==> layer_keys_among(params, ks.take(i + 1))
            == layer_keys_among(params, ks.take(i)).insert(ks[i]),
        !is_layer_entry(ks[i], params[ks[i]]@) ==> layer_keys_among(params, ks.take(i + 1))
            == layer_keys_among(params, ks.take(i)),
{
    assert(ks.take(i + 1) =~= ks.take(i).push(ks[i]));
    ks.take(i).lemma_push_to_set_commute(ks[i]);
    assert(ks.take(i + 1).to_set() == ks.take(i).to_set().insert(ks[i]));
    if is_layer_entry(ks[i], params[ks[i]]@) {
        assert(layer_keys_among(params, ks.take(i + 1)) =~= layer_keys_among(params, ks.take(i)).insert(ks[i]));
    } else {
        assert(layer_keys_among(params, ks.take(i + 1)) =~= layer_keys_among(params, ks.take(i)));
    }
}

/// Whether the entry (`k`, `v`) of a request is a layer filter.
fn layer_entry(k: &String, v: &String) -> (b: bool)
    ensures
        b == is_layer_entry(k@, v@),
{
    reveal(is_layer_entry);
    let kc = chars_of(k);
    match layer_rest_of(&kc) {
        Some(rest) => {
            let rest_s = string_from_chars(&rest);
            let rest_t = trimmed(rest_s.as_str());
            let vt = trimmed(v.as_str());
            !is_blank(&rest_t) && !is_blank(&vt)
        },
        None => false,
    }
}

/// Inserting a layer entry keeps the entries in step with the keys
/// considered.
proof fn lemma_layer_insert(
    params: Map<Seq<char>, String>,
    before: Seq<(String, String)>,
    p: int,
    k: String,
    vt: String,
    considered: Set<Seq<char>>,
)
    requires
        0 <= p <= before.len(),
        params.contains_key(k@),
        vt@ == trim_of(params[k@]@),
        forall|j: int| 0 <= j < before.len() ==> (#[trigger] before[j]).1@ == trim_of(params[before[j].0@]@),
        entry_keys(before).to_set().insert(k@) == considered,
    ensures
        entry_keys(before.insert(p, (k, vt))).to_set() == considered,
        forall|j: int| 0 <= j < before.insert(p, (k, vt)).len() ==> (#[trigger] before.insert(p, (k, vt))[j]).1@
            == trim_of(params[before.insert(p, (k, vt))[j].0@]@),
{
    lemma_insert_entry(before, p, (k, vt));
    let after = before.insert(p, (k, vt));
    assert forall|j: int| 0 <= j < after.len() implies (#[trigger] after[j]).1@ == trim_of(params[after[j].0@]@) by {
        if j < p {
            assert(after[j] == before[j]);
        } else if j > p {
            assert(after[j] == before[j - 1]);
        }
    }
}

/// The next key of the enumeration is not among the layer keys of the
/// earlier ones.
proof fn lemma_next_key_new(params: Map<Seq<char>, String>, ks: Seq<Seq<char>>, i: int, held: Seq<Seq<char>>)
    requires
        0 <= i < ks.len(),
        ks.no_duplicates(),
        held.to_set() == layer_keys_among(params, ks.take(i)),
    ensures
        !held.contains(ks[i]),
{
    if held.contains(ks[i]) {
        assert(held.to_set().contains(ks[i]));
        assert(ks.take(i).to_set().contains(ks[i]));
        assert(ks.take(i).contains(ks[i]));
        let j = choose|j: int| 0 <= j < i && ks.take(i)[j] == ks[i];
        assert(ks[j] == ks[i]);
    }
}

/// The request's layer filters, sorted by key, each value trimmed.
pub fn layer_filters(params: &StrMap<String>) -> (fs: Vec<(String, String)>)
    requires
        params.wf(),
    ensures
        sorted_strictly(entry_keys(fs@)),
        entry_keys(fs@).to_set() == layer_keys(params@),
        forall|i: int| 0 <= i < fs@.len() ==> (#[trigger] fs@[i]).1@ == trim_of(params@[fs@[i].0@]@),
{
    let mut fs: Vec<(String, String)> = Vec::new();
    let n = params.len();
    proof {
        params.lemma_key_seq();
        assert(params.key_seq().take(0).to_set() =~= Set::<Seq<char>>::empty());
        assert(layer_keys_among(params@, params.key_seq().take(0)) =~= Set::<Seq<char>>::empty());
        assert(entry_keys(fs@).to_set() =~= Set::<Seq<char>>::empty());
    }
    for i in 0..n
        invariant
            n == params.key_seq().len(),
            params.wf(),
            params.key_seq().no_duplicates(),
            params.key_seq().to_set() == params@.dom(),
            sorted_strictly(entry_keys(fs@)),
            entry_keys(fs@).to_set() == layer_keys_among(params@, params.key_seq().take(i as int)),
            forall|j: int| 0 <= j < fs@.len() ==> (#[trigger] fs@[j]).1@ == trim_of(params@[fs@[j].0@]@),
    {
        let k = params.key_at(i);
        let v = params.value_at(i);
        let ghost before = fs@;
        let ghost ks = params.key_seq();
        proof {
            lemma_layer_keys_step(params@, ks, i as int);
        }
        if layer_entry(k, v) {
            proof {
                lemma_next_key_new(params@, ks, i as int, entry_keys(fs@));
            }
            let vt = trimmed(v.as_str());
            insert_sorted(&mut fs, k.clone(), vt);
            proof {
                let p = choose|p: int| 0 <= p <= before.len() && fs@ == before.insert(p, (*k, vt));
                lemma_layer_insert(params@, before, p, *k, vt, layer_keys_among(params@, ks.take(i + 1)));
            }
        }
    }
    proof {
        assert(params.key_seq().take(n as int) =~= params.key_seq());
        assert(layer_keys_among(params@, params.key_seq()) =~= layer_keys(params@));
    }
    fs
}

/// The value of `key` in the request, if present.
pub open spec fn lookup(params: Map<Seq<char>, String>, key: Seq<char>) -> Option<Seq<char>> {
    if params.contains_key(key) {
        Some(params[key]@)
    } else {
        None
    }
}

/// A value, trimmed, unless it is missing or blank.
pub open spec fn nonblank_trimmed(v: Option<Seq<char>>) -> Option<Seq<char>> {
    match v {
        Some(s) => if trim_of(s).len() > 0 {
            Some(trim_of(s))
        } else {
            None
        },
        None => None,
    }
}

/// The base directive: `target=level`, or the level alone.
pub open spec fn base_directive(target: Option<Seq<char>>, level: Seq<char>) -> Seq<char> {
    match target {
        Some(t) => t + "="@ + level,
        None => level,
    }
}

/// The extra directives of the request's "directives" entry, if any.
pub open spec fn requested_extras(params: Map<Seq<char>, String>) -> Seq<Seq<char>> {
    match lookup(params, "directives"@) {
        Some(d) => extra_directives(d),
        None => Seq::empty(),
    }
}

/// The values of a list of (key, value) entries.
pub open spec fn entry_values(fs: Seq<(String, String)>) -> Seq<Seq<char>> {
    fs.map_values(|e: (String, String)| e.1@)
}

/// The answer to a request without a level.
pub open spec fn missing_level_error() -> Seq<char> {
    "ERROR: missing required key 'level'"@
}

/// The answer to a request with an unknown level.
pub open spec fn invalid_level_error() -> Seq<char> {
    "ERROR: invalid level. Use one of: trace, debug, info, warn, error"@
}

/// What a log level request asks for.
pub struct LogPlan {
    /// All directives, in order: the base one, the extra ones, the layer ones.
    pub directives: Vec<String>,
    /// The layer filters (key, trimmed value), sorted by key.
    pub layer_filters: Vec<(String, String)>,
    /// The span events asked for, if any: acknowledged, not applied.
    pub span_events: Option<String>,
}

/// `plan` is what a request with entries `params` and (lowercased) level
/// `level` asks for.
pub open spec fn plan_fits(params: Map<Seq<char>, String>, level: Seq<char>, plan: LogPlan) -> bool {
    &&& sorted_strictly(entry_keys(plan.layer_filters@))
    &&& entry_keys(plan.layer_filters@).to_set() == layer_keys(params)
    &&& forall|i: int| 0 <= i < plan.layer_filters@.len()
        ==> (#[trigger] plan.layer_filters@[i]).1@ == trim_of(params[plan.layer_filters@[i].0@]@)
    &&& string_views(plan.directives@) == seq![base_directive(nonblank_trimmed(lookup(params, "target"@)), level)]
        + requested_extras(params) + entry_values(plan.layer_filters@)
    &&& match plan.span_events {
        Some(e) => nonblank_trimmed(lookup(params, "span_events"@)) == Some(e@),
        None => nonblank_trimmed(lookup(params, "span_events"@)) is None,
    }
}

/// No directive of the list starts with whitespace.
pub open spec fn all_unspaced(ds: Seq<String>) -> bool {
    forall|i: int| 0 <= i < ds.len() ==> starts_unspaced((#[trigger] ds[i])@)
}

proof fn lemma_kept_trimmed_unspaced(pieces: Seq<Seq<char>>)
    ensures
        forall|i: int| 0 <= i < kept_trimmed(pieces).len() ==> starts_unspaced(#[trigger] kept_trimmed(pieces)[i]),
    decreases pieces.len(),
{
    if pieces.len() > 0 {
        lemma_kept_trimmed_unspaced(pieces.drop_last());
        lemma_trim_starts_unspaced(pieces.last());
        let rest = kept_trimmed(pieces.drop_last());
        let k = kept_trimmed(pieces);
        assert forall|i: int| 0 <= i < k.len() implies starts_unspaced(#[trigger] k[i]) by {
            if i < rest.len() {
                assert(k[i] == rest[i]);
            } else {
                assert(k[i] == trim_of(pieces.last()));
            }
        }
    }
}

/// The directives of a plan start with no whitespace: each is a trimmed
/// value that is not blank, or a level, or a trimmed target and a level.
proof fn lemma_plan_unspaced(params: Map<Seq<char>, String>, level: Seq<char>, plan: LogPlan)
    requires
        plan_fits(params, level, plan),
        is_log_level(level),
    ensures
        all_unspaced(plan.directives@),
{
    let base = base_directive(nonblank_trimmed(lookup(params, "target"@)), level);
    let extras = requested_extras(params);
    let values = entry_values(plan.layer_filters@);
    assert(starts_unspaced(base)) by {
        reveal_strlit("trace");
        reveal_strlit("debug");
        reveal_strlit("info");
        reveal_strlit("warn");
        reveal_strlit("error");
        match lookup(params, "target"@) {
            Some(s) => {
                lemma_trim_starts_unspaced(s);
                if trim_of(s).len() > 0 {
                    assert(base[0] == trim_of(s)[0]);
                }
            },
            None => {},
        }
    }
    match lookup(params, "directives"@) {
        Some(d) => lemma_kept_trimmed_unspaced(comma_pieces(d)),
        None => {},
    }
    assert forall|i: int| 0 <= i < values.len() implies starts_unspaced(#[trigger] values[i]) by {
        let k = plan.layer_filters@[i].0@;
        assert(entry_keys(plan.layer_filters@)[i] == k);
        assert(entry_keys(plan.layer_filters@).to_set().contains(k));
        assert(layer_keys(params).contains(k));
        reveal(is_layer_entry);
        lemma_trim_starts_unspaced(params[k]@);
    }
    let views = string_views(plan.directives@);
    assert(views.len() == plan.directives@.len());
    assert(views == seq![base] + extras + values);
    assert forall|i: int| 0 <= i < plan.directives@.len() implies starts_unspaced((#[trigger] plan.directives@[i])@) by {
        assert(views[i] == plan.directives@[i]@);
        if i == 0 {
            assert(views[i] == base);
        } else if i < 1 + extras.len() {
            assert(views[i] == extras[i - 1]);
        } else {
            assert(views[i] == values[i - 1 - extras.len()]);
        }
    }
}

/// The value of `key`, trimmed, unless missing or blank.
fn nonblank_value(params: &StrMap<String>, key: &String) -> (r: Option<String>)
    requires
        params.wf(),
    ensures
        match r {
            Some(v) => nonblank_trimmed(lookup(params@, key@)) == Some(v@),
            None => nonblank_trimmed(lookup(params@, key@)) is None,
        },
{
    match params.get(key) {
        Some(v) => {
            let t = trimmed(v.as_str());
            if is_blank(&t) {
                None
            } else {
                Some(t)
            }
        },
        None => None,
    }
}

/// Works out the directives that a log level request asks for, or the
/// error to answer: the level is required and must be one of trace, debug,
/// info, warn, error (in any case).
pub fn plan_log_directives(params: &StrMap<String>) -> (r: Result<LogPlan, String>)
    requires
        params.wf(),
    ensures
        match lookup(params@, "level"@) {
            None => r matches Err(e) && e@ == missing_level_error(),
            Some(level) => if !is_log_level(lowercase_of(level)) {
                r matches Err(e) && e@ == invalid_level_error()
            } else {
                r matches Ok(plan) && plan_fits(params@, lowercase_of(level), plan)
                    && all_unspaced(plan.directives@)
            },
        },
        match lookup(params@, "level"@) {
            Some(level) => is_ascii_text(level) ==> lowercase_of(level) == ascii_lowered(level),
            None => true,
        },
{
    let level = match params.get(&String::from_str("level")) {
        Some(l) => l,
        None => {
            return Err(String::from_str("ERROR: missing required key 'level'"));
        },
    };
    let lvl = lowercased(level.as_str());
    if !log_level_known(&lvl) {
        return Err(String::from_str("ERROR: invalid level. Use one of: trace, debug, info, warn, error"));
    }
    let ghost lv = lvl@;
    let target = nonblank_value(params, &String::from_str("target"));
    let ghost target_view: Option<Seq<char>> = match &target {
        Some(t) => Some(t@),
        None => None,
    };
    let base = match target {
        Some(t) => {
            let mut b = t;
            b.append("=");
            b.append(lvl.as_str());
            b
        },
        None => lvl,
    };
    assert(base@ == base_directive(target_view, lv));
    assert(target_view == nonblank_trimmed(lookup(params@, "target"@)));
    let mut directives: Vec<String> = Vec::new();
    directives.push(base);
    let ghost base_views = string_views(directives@);
    assert(base_views =~= seq![base_directive(nonblank_trimmed(lookup(params@, "target"@)), lv)]);
    let extras = match params.get(&String::from_str("directives")) {
        Some(d) => extra_directive_list(d),
        None => Vec::new(),
    };
    proof {
        assert(string_views(extras@) == requested_extras(params@)) by {
            if !params@.contains_key("directives"@) {
                assert(string_views(extras@) =~= Seq::<Seq<char>>::empty());
            }
        }
    }
    for i in 0..extras.len()
        invariant
            string_views(directives@) == base_views + string_views(extras@).take(i as int),
    {
        let ghost before = directives@;
        directives.push(extras[i].clone());
        proof {
            assert(string_views(directives@) =~= string_views(before).push(extras@[i as int]@));
            assert(string_views(extras@).take(i + 1) =~= string_views(extras@).take(i as int).push(
                extras@[i as int]@,
            ));
        }
    }
    proof {
        assert(string_views(extras@).take(extras.len() as int) =~= string_views(extras@));
    }
    let ghost with_extras = string_views(directives@);
    let fs = layer_filters(params);
    for i in 0..fs.len()
        invariant
            string_views(directives@) == with_extras + entry_values(fs@).take(i as int),
    {
        let ghost before = directives@;
        directives.push(fs[i].1.clone());
        proof {
            assert(string_views(directives@) =~= string_views(before).push(fs@[i as int].1@));
            assert(entry_values(fs@).take(i + 1) =~= entry_values(fs@).take(i as int).push(fs@[i as int].1@));
        }
    }
    proof {
        assert(entry_values(fs@).take(fs.len() as int) =~= entry_values(fs@));
    }
    let span_events = nonblank_value(params, &String::from_str("span_events"));
    assert(string_views(directives@) == seq![base_directive(nonblank_trimmed(lookup(params@, "target"@)), lv)]
        + requested_extras(params@) + entry_values(fs@));
    let plan = LogPlan { directives, layer_filters: fs, span_events };
    proof {
        lemma_plan_unspaced(params@, lv, plan);
    }
    Ok(plan)
}

#[verifier::external_type_specification]
#[verifier::external_body]
pub struct ExDirective(Directive);

/// What parsing `s` as a filter directive reports: `None` when `s` is a valid
/// directive, otherwise the text of the parse error.
pub uninterp spec fn directive_parse_error(s: Seq<char>) -> Option<Seq<char>>;

/// Calls `<Directive as FromStr>::from_str` of tracing-subscriber (through
/// `str::parse`); a `ParseError` becomes its display text. The outcome is
/// named, not stated: the directive grammar is tracing-subscriber's. The
/// parser reads positions in the trimmed text and cuts the untrimmed one at
/// them, so `s` must not start with whitespace.
#[verifier::external_body]
fn parse_directive(s: &String) -> (r: Result<Directive, String>)
    requires
        starts_unspaced(s@),
    ensures
        match r {
            Ok(_) => directive_parse_error(s@) is None,
            Err(e) => directive_parse_error(s@) == Some(e@),
        },
{
    match s.parse::<Directive>() {
        Ok(d) => Ok(d),
        Err(e) => Err(e.to_string()),
    }
}

/// The examples appended to the answer to an invalid directive.
pub open spec fn directive_examples() -> Seq<char> {
    ". Examples: {\"level\":\"debug\"} or {\"level\":\"debug\",\"target\":\"rt_server::processor_bulk\"} or {\"level\":\"debug\",\"directives\":\"hyper=warn,tower_http=info\"} or {\"level\":\"debug\",\"layer_1\":\"rt_server::processor_bulk=trace\"}"@
}

/// The answer to a request whose directive `d` does not parse, with parse
/// error `err`.
pub open spec fn invalid_directive_error(d: Seq<char>, err: Seq<char>) -> Seq<char> {
    "ERROR: invalid directive '"@ + d + "': "@ + err + directive_examples()
}

/// Parses the directives in order; the first that does not parse decides
/// the answer.
pub fn parse_directives(ds: &Vec<String>) -> (r: Result<Vec<Directive>, String>)
    requires
        all_unspaced(ds@),
    ensures
        match r {
            Ok(v) => v.len() == ds.len() && forall|i: int| 0 <= i < ds.len()
                ==> directive_parse_error((#[trigger] ds@[i])@) is None,
            Err(e) => exists|i: int| {
                &&& 0 <= i < ds.len()
                &&& forall|j: int| 0 <= j < i ==> directive_parse_error((#[trigger] ds@[j])@) is None
                &&& directive_parse_error(ds@[i]@) is Some
                &&& e@ == invalid_directive_error(ds@[i]@, directive_parse_error(ds@[i]@)->0)
            },
        },
{
    let mut parsed: Vec<Directive> = Vec::new();
    for i in 0..ds.len()
        invariant
            parsed.len() == i,
            all_unspaced(ds@),
            forall|j: int| 0 <= j < i ==> directive_parse_error((#[trigger] ds@[j])@) is None,
    {
        match parse_directive(&ds[i]) {
            Ok(d) => {
                parsed.push(d);
            },
            Err(err) => {
                let mut e = String::from_str("ERROR: invalid directive '");
                e.append(ds[i].as_str());
                e.append("': ");
                e.append(err.as_str());
                e.append(". Examples: {\"level\":\"debug\"} or {\"level\":\"debug\",\"target\":\"rt_server::processor_bulk\"} or {\"level\":\"debug\",\"directives\":\"hyper=warn,tower_http=info\"} or {\"level\":\"debug\",\"layer_1\":\"rt_server::processor_bulk=trace\"}");
                assert(e@ == invalid_directive_error(ds@[i as int]@, directive_parse_error(ds@[i as int]@)->0));
                return Err(e);
            },
        }
    }
    Ok(parsed)
}

/// The note on span events that were asked for: they are acknowledged, not
/// applied.
pub open spec fn span_events_note_text(se: Seq<char>) -> Seq<char> {
    "NOTE: span_events='"@ + se + "' requested but not applied (not supported by current reload handle)."@
}

/// The note on span events that were asked for.
pub fn span_events_note(se: &String) -> (n: String)
    ensures
        n@ == span_events_note_text(se@),
{
    let mut n = String::from_str("NOTE: span_events='");
    n.append(se.as_str());
    n.append("' requested but not applied (not supported by current reload handle).");
    n
}

/// The note on layer filters, given how the filters received are shown.
pub open spec fn layer_note_text(received: Seq<char>) -> Seq<char> {
    "NOTE: layer_* directives were merged into the global filter (per-layer filters require subscriber changes). Received: "@
        + received
}

/// The note on layer filters, given how the filters received are shown.
pub fn layer_note(received: &String) -> (n: String)
    ensures
        n@ == layer_note_text(received@),
{
    let mut n = String::from_str(
        "NOTE: layer_* directives were merged into the global filter (per-layer filters require subscriber changes). Received: ",
    );
    n.append(received.as_str());
    n
}

/// The notes, one after the other, with a space between two.
pub open spec fn joined_notes(notes: Seq<Seq<char>>) -> Seq<char>
    decreases notes.len(),
{
    if notes.len() == 0 {
        Seq::empty()
    } else if notes.len() == 1 {
        notes[0]
    } else {
        joined_notes(notes.drop_last()) + " "@ + notes.last()
    }
}

/// The answer to a request whose filter was installed, given how the
/// directives are shown and the notes to add.
pub open spec fn log_answer_text(shown: Seq<char>, notes: Seq<Seq<char>>) -> Seq<char> {
    if notes.len() == 0 {
        "OK: log directives set to "@ + shown
    } else {
        "OK: log directives set to "@ + shown + ". "@ + joined_notes(notes)
    }
}

/// The answer to a request whose filter was installed: the directives as
/// shown, then the notes, if any.
pub fn log_answer(shown: &String, notes: &Vec<String>) -> (a: String)
    ensures
        a@ == log_answer_text(shown@, string_views(notes@)),
{
    let mut a = String::from_str("OK: log directives set to ");
    a.append(shown.as_str());
    if notes.len() == 0 {
        return a;
    }
    a.append(". ");
    let mut joined = String::new();
    for i in 0..notes.len()
        invariant
            joined@ == joined_notes(string_views(notes@).take(i as int)),
    {
        let ghost before = joined@;
        if i > 0 {
            joined.append(" ");
        }
        joined.append(notes[i].as_str());
        proof {
            let t = string_views(notes@).take(i + 1);
            assert(t.drop_last() =~= string_views(notes@).take(i as int));
            if i == 0 {
                assert(t.len() == 1);
            }
        }
    }
    proof {
        assert(string_views(notes@).take(notes.len() as int) =~= string_views(notes@));
    }
    a.append(joined.as_str());
    a
}

} // verus!
