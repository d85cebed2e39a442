//! The response field gate.
//!
//! A field whose key contains two consecutive underscores is gated: the
//! part of the key before the first such pair names the feature that gates
//! it.  A gated field survives only if that feature name (lower-cased) is
//! among the request's enabled features; the rule is applied at every depth
//! of the payload, and by default no features are enabled, so every gated
//! field is stripped.

use vstd::prelude::*;
use vstd::string::StrSliceExecFns;
use crate::json::json_model;
use crate::json::json_model_entries;
use crate::json::json_model_seq;
use crate::json::lemma_json_model_entries;
use crate::json::lemma_json_model_seq;
use crate::json::JsonModel;
use crate::json::JsonValue;
use crate::strutil::lower_chars;
use crate::strutil::str_eq_ignore_case;

verus! {

/// Two consecutive underscores start at position `i` of `key`.
pub open spec fn sep_at(key: Seq<char>, i: int) -> bool {
    0 <= i && i + 2 <= key.len() && key[i] == '_' && key[i + 1] == '_'
}

/// The position of the first underscore pair in `key`, or `-1` if there is
/// none.
pub open spec fn first_sep(key: Seq<char>) -> int
    decreases key.len(),
{
    if key.len() < 2 {
        -1
    } else if key[0] == '_' && key[1] == '_' {
        0
    } else if first_sep(key.drop_first()) < 0 {
        -1
    } else {
        1 + first_sep(key.drop_first())
    }
}

/// Is the field named `key` gated at all?
pub open spec fn gated(key: Seq<char>) -> bool {
    first_sep(key) >= 0
}

/// The lower-cased feature name gating the field named `key`.
pub open spec fn feature_of(key: Seq<char>) -> Seq<char> {
    lower_chars(key.take(first_sep(key)))
}

/// Does a field named `key` survive filtering under `feats`?
pub open spec fn keeps(key: Seq<char>, feats: Set<Seq<char>>) -> bool {
    !gated(key) || feats.contains(feature_of(key))
}

/// The filtered form of a document: gated fields whose feature is not
/// enabled are removed, at every depth; everything else is kept in order.
pub open spec fn filter_model(v: JsonModel, feats: Set<Seq<char>>) -> JsonModel
    decreases v,
{
    match v {
        JsonModel::Obj(entries) => JsonModel::Obj(filter_entries_model(entries, feats)),
        JsonModel::Arr(items) => JsonModel::Arr(filter_items_model(items, feats)),
        _ => v,
    }
}

/// Filtering of an object's fields.
pub open spec fn filter_entries_model(
    s: Seq<(Seq<char>, JsonModel)>,
    feats: Set<Seq<char>>,
) -> Seq<(Seq<char>, JsonModel)>
    decreases s,
{
    if s.len() == 0 {
        Seq::empty()
    } else {
        filter_entries_model(s.drop_last(), feats) + (if keeps(s.last().0, feats) {
            seq![(s.last().0, filter_model(s.last().1, feats))]
        } else {
            Seq::<(Seq<char>, JsonModel)>::empty()
        })
    }
}

/// Filtering of an array's elements.
pub open spec fn filter_items_model(s: Seq<JsonModel>, feats: Set<Seq<char>>) -> Seq<JsonModel>
    decreases s,
{
    if s.len() == 0 {
        Seq::empty()
    } else {
        filter_items_model(s.drop_last(), feats) + seq![filter_model(s.last(), feats)]
    }
}

/// The per-request set of enabled features.
///
/// Built from the request's `features` query parameter, a comma-separated,
/// case-insensitive list of feature names.  When no parameter is supplied
/// the set is empty, so all gated fields are stripped — the secure default.
#[derive(Debug)]
pub struct FeatureFilter {
    pub features: Vec<String>,
}

impl FeatureFilter {
    /// The set of lower-cased enabled feature names.
    pub open spec fn enabled_set(self) -> Set<Seq<char>> {
        Set::new(
            |f: Seq<char>|
                exists|i: int|
                    0 <= i < self.features@.len() && lower_chars(#[trigger] self.features@[i]@)
                        == f,
        )
    }

    /// Is the feature naming `prefix` (compared ASCII-case-insensitively)
    /// enabled?
    pub fn is_enabled(&self, prefix: &str) -> (r: bool)
        ensures
            r == self.enabled_set().contains(lower_chars(prefix@)),
    {
        let mut i: usize = 0;
        while i < self.features.len()
            invariant
                i <= self.features@.len(),
                forall|j: int| 0 <= j < i as int ==> lower_chars(#[trigger] self.features@[j]@)
                    != lower_chars(prefix@),
            decreases self.features@.len() - i,
        {
            if str_eq_ignore_case(self.features[i].as_str(), prefix) {
                return true;
            }
            i += 1;
        }
        false
    }

    /// Build the enabled set from the raw `features` query parameter.
    pub fn from_query(q: &str) -> (r: FeatureFilter)
        ensures
            r.features.deep_view() == split_commas(q@),
    {
        FeatureFilter { features: split_commas_exec(q) }
    }

    /// Filter an outbound payload under this request's enabled features.
    pub fn filter(&self, value: &JsonValue) -> (r: JsonValue)
        ensures
            r@ == filter_model(value@, self.enabled_set()),
    {
        designator(value, self)
    }
}

impl Default for FeatureFilter {
    /// With no `features` parameter, no features are enabled.
    fn default() -> (r: Self)
        ensures
            r.features@.len() == 0,
            r.enabled_set() == Set::<Seq<char>>::empty(),
    {
        let r = FeatureFilter { features: Vec::new() };
        proof {
            assert(r.enabled_set() =~= Set::<Seq<char>>::empty());
        }
        r
    }
}

/// The position of the first comma in `s`, or `s.len()` if there is none.
pub open spec fn first_comma(s: Seq<char>) -> int
    decreases s.len(),
{
    if s.len() == 0 {
        0
    } else if s[0] == ',' {
        0
    } else {
        1 + first_comma(s.drop_first())
    }
}

/// `first_comma` stays within the string.
proof fn lemma_first_comma_bounds(s: Seq<char>)
    ensures
        0 <= first_comma(s) <= s.len(),
    decreases s.len(),
{
    if s.len() > 0 && s[0] != ',' {
        lemma_first_comma_bounds(s.drop_first());
    }
}

/// The comma-separated pieces of `s`, in order; an empty string has the
/// single piece `""`.
pub open spec fn split_commas(s: Seq<char>) -> Seq<Seq<char>>
    decreases s.len(),
    via split_commas_decreases
{
    let k = first_comma(s);
    if k == s.len() {
        seq![s]
    } else {
        seq![s.take(k)] + split_commas(s.subrange(k + 1, s.len() as int))
    }
}

#[via_fn]
proof fn split_commas_decreases(s: Seq<char>) {
    lemma_first_comma_bounds(s);
}

/// `first_comma` is sound: everything before it differs from `','` and it
/// points at a comma unless it is the length.
proof fn lemma_first_comma(s: Seq<char>, k: int)
    requires
        0 <= k <= s.len(),
        forall|j: int| 0 <= j < k ==> s[j] != ',',
        k < s.len() ==> s[k] == ',',
    ensures
        first_comma(s) == k,
    decreases s.len(),
{
    if s.len() > 0 && k > 0 {
        lemma_first_comma(s.drop_first(), k - 1);
    }
}

/// Split a string at commas.
#[verifier::loop_isolation(false)]
pub fn split_commas_exec(s: &str) -> (r: Vec<String>)
    ensures
        r.deep_view() == split_commas(s@),
    decreases s@.len(),
{
    let len = s.unicode_len();
    let mut i: usize = 0;
    while i < len
        invariant
            i <= len,
            forall|j: int| 0 <= j < i as int ==> s@[j] != ',',
        decreases len - i,
    {
        if s.get_char(i) == ',' {
            proof {
                lemma_first_comma(s@, i as int);
            }
            let head = s.substring_char(0, i);
            let tail = s.substring_char(i + 1, len);
            let mut out = split_commas_exec(tail);
            out.insert(0, head.to_owned());
            proof {
                assert(out.deep_view() =~= split_commas(s@));
            }
            return out;
        }
        i += 1;
    }
    proof {
        lemma_first_comma(s@, len as int);
        assert(s@.take(len as int) =~= s@);
    }
    let mut out: Vec<String> = Vec::new();
    out.push(s.to_owned());
    proof {
        assert(out.deep_view() =~= split_commas(s@));
    }
    out
}

/// `first_sep` is sound: if no underscore pair starts before `k`, then
/// `first_sep` is `k` when a pair starts there, and `-1` when no pair can
/// start at or after `k`.
proof fn lemma_first_sep_from(s: Seq<char>, k: int)
    requires
        0 <= k,
        forall|j: int| 0 <= j < k ==> !sep_at(s, j),
    ensures
        sep_at(s, k) ==> first_sep(s) == k,
        k + 2 > s.len() ==> first_sep(s) == -1,
    decreases s.len(),
{
    if s.len() < 2 {
        // first_sep is -1 by definition and no pair fits anywhere.
    } else if k == 0 {
        // Either a pair starts at 0 (then first_sep is 0 by definition),
        // or k + 2 > s.len() is impossible.
    } else {
        let t = s.drop_first();
        assert(t =~= s.subrange(1, s.len() as int));
        assert(!sep_at(s, 0));
        assert(!(s[0] == '_' && s[1] == '_'));
        assert forall|j: int| 0 <= j < k - 1 implies !sep_at(t, j) by {
            if sep_at(t, j) {
                assert(t[j] == s[j + 1]);
                assert(t[j + 1] == s[j + 2]);
                assert(sep_at(s, j + 1));
            }
        }
        lemma_first_sep_from(t, k - 1);
        if sep_at(s, k) {
            assert(t[k - 1] == s[k]);
            assert(t[k] == s[k + 1]);
            assert(sep_at(t, k - 1));
        }
    }
}

/// Find the first underscore pair of `key`.
#[verifier::loop_isolation(false)]
fn find_sep(key: &str) -> (r: Option<usize>)
    ensures
        match r {
            Some(k) => first_sep(key@) == k as int && sep_at(key@, k as int),
            None => first_sep(key@) == -1,
        },
{
    let len = key.unicode_len();
    if len < 2 {
        proof {
            lemma_first_sep_from(key@, 0);
        }
        return None;
    }
    let mut i: usize = 0;
    while i < len - 1
        invariant
            i <= len - 1,
            forall|j: int| 0 <= j < i as int ==> !sep_at(key@, j),
        decreases len - i,
    {
        if key.get_char(i) == '_' && key.get_char(i + 1) == '_' {
            proof {
                lemma_first_sep_from(key@, i as int);
            }
            return Some(i);
        }
        proof {
            assert(!sep_at(key@, i as int));
        }
        i += 1;
    }
    proof {
        lemma_first_sep_from(key@, i as int);
    }
    None
}

/// Filter a document under the given feature set: gated fields whose
/// feature is not enabled are removed, recursively at every depth; arrays
/// are walked element by element and scalars pass through unchanged.
#[verifier::loop_isolation(false)]
pub fn designator(value: &JsonValue, features: &FeatureFilter) -> (r: JsonValue)
    ensures
        r@ == filter_model(value@, features.enabled_set()),
    decreases *value,
{
    let ghost feats = features.enabled_set();
    match value {
        JsonValue::Arr(items) => {
            let mut out: Vec<JsonValue> = Vec::new();
            let mut i: usize = 0;
            while i < items.len()
                invariant
                    i <= items@.len(),
                    json_model_seq(out@) == filter_items_model(
                        json_model_seq(items@.take(i as int)),
                        feats,
                    ),
                decreases items@.len() - i,
            {
                let filtered = designator(&items[i], features);
                proof {
                    lemma_json_model_seq(out@);
                    lemma_json_model_seq(out@.push(filtered));
                    lemma_json_model_seq(items@.take(i as int));
                    lemma_json_model_seq(items@.take(i as int + 1));
                    let prev = json_model_seq(items@.take(i as int));
                    let cur = json_model_seq(items@.take(i as int + 1));
                    assert(cur =~= prev + seq![json_model(items@[i as int])]);
                    assert(cur.drop_last() =~= prev);
                    assert(json_model_seq(out@.push(filtered)) =~= json_model_seq(out@) + seq![
                        filtered@,
                    ]);
                }
                out.push(filtered);
                i += 1;
            }
            proof {
                assert(items@.take(items@.len() as int) =~= items@);
            }
            JsonValue::Arr(out)
        },
        JsonValue::Obj(entries) => {
            let mut out: Vec<(String, JsonValue)> = Vec::new();
            let mut i: usize = 0;
            while i < entries.len()
                invariant
                    i <= entries@.len(),
                    json_model_entries(out@) == filter_entries_model(
                        json_model_entries(entries@.take(i as int)),
                        feats,
                    ),
                decreases entries@.len() - i,
            {
                let key: &String = &entries[i].0;
                let keep: bool = match find_sep(key.as_str()) {
                    None => true,
                    Some(k) => {
                        let prefix = key.as_str().substring_char(0, k);
                        proof {
                            assert(prefix@ =~= key@.take(first_sep(key@)));
                        }
                        features.is_enabled(prefix)
                    },
                };
                proof {
                    assert(keep == keeps(key@, feats));
                    lemma_json_model_entries(entries@.take(i as int));
                    lemma_json_model_entries(entries@.take(i as int + 1));
                    let prev = json_model_entries(entries@.take(i as int));
                    let cur = json_model_entries(entries@.take(i as int + 1));
                    assert(cur =~= prev + seq![
                        (entries@[i as int].0@, json_model(entries@[i as int].1)),
                    ]);
                    assert(cur.drop_last() =~= prev);
                }
                if keep {
                    let filtered = designator(&entries[i].1, features);
                    let owned_key = entries[i].0.clone();
                    proof {
                        lemma_json_model_entries(out@);
                        lemma_json_model_entries(out@.push((owned_key, filtered)));
                        assert(json_model_entries(out@.push((owned_key, filtered)))
                            =~= json_model_entries(out@) + seq![(key@, filtered@)]);
                    }
                    out.push((owned_key, filtered));
                } else {
                    proof {
                        let prev = json_model_entries(entries@.take(i as int));
                        let cur = json_model_entries(entries@.take(i as int + 1));
                        assert(filter_entries_model(cur, feats) =~= filter_entries_model(
                            prev,
                            feats,
                        ));
                    }
                }
                i += 1;
            }
            proof {
                assert(entries@.take(entries@.len() as int) =~= entries@);
            }
            JsonValue::Obj(out)
        },
        JsonValue::Null => JsonValue::Null,
        JsonValue::Bool(b) => JsonValue::Bool(*b),
        JsonValue::Int(n) => JsonValue::Int(*n),
        JsonValue::Str(s) => JsonValue::Str(s.clone()),
    }
}

/// Every gate in the document is enabled under `feats`, at every depth.
pub open spec fn all_gates_enabled(v: JsonModel, feats: Set<Seq<char>>) -> bool
    decreases v,
{
    match v {
        JsonModel::Obj(entries) => forall|i: int|
            0 <= i < entries.len() ==> keeps((#[trigger] entries[i]).0, feats)
                && all_gates_enabled(entries[i].1, feats),
        JsonModel::Arr(items) => forall|i: int|
            0 <= i < items.len() ==> all_gates_enabled(#[trigger] items[i], feats),
        _ => true,
    }
}

/// When every gate a document carries is enabled, filtering leaves the
/// document unchanged at every depth.
pub proof fn lemma_filter_enabled_identity(v: JsonModel, feats: Set<Seq<char>>)
    requires
        all_gates_enabled(v, feats),
    ensures
        filter_model(v, feats) == v,
    decreases v,
{
    match v {
        JsonModel::Obj(entries) => {
            lemma_filter_entries_identity(entries, feats);
        },
        JsonModel::Arr(items) => {
            lemma_filter_items_identity(items, feats);
        },
        _ => {},
    }
}

/// Identity of filtering on an object's fields when every gate is enabled.
proof fn lemma_filter_entries_identity(s: Seq<(Seq<char>, JsonModel)>, feats: Set<Seq<char>>)
    requires
        forall|i: int| 0 <= i < s.len() ==> keeps((#[trigger] s[i]).0, feats)
            && all_gates_enabled(s[i].1, feats),
    ensures
        filter_entries_model(s, feats) == s,
    decreases s,
{
    if s.len() > 0 {
        lemma_filter_enabled_identity(s.last().1, feats);
        lemma_filter_entries_identity(s.drop_last(), feats);
        assert(s.drop_last() + seq![(s.last().0, filter_model(s.last().1, feats))] =~= s);
    }
}

/// Identity of filtering on an array's elements when every gate is enabled.
proof fn lemma_filter_items_identity(s: Seq<JsonModel>, feats: Set<Seq<char>>)
    requires
        forall|i: int| 0 <= i < s.len() ==> all_gates_enabled(#[trigger] s[i], feats),
    ensures
        filter_items_model(s, feats) == s,
    decreases s,
{
    if s.len() > 0 {
        lemma_filter_enabled_identity(s.last(), feats);
        lemma_filter_items_identity(s.drop_last(), feats);
        assert(s.drop_last() + seq![filter_model(s.last(), feats)] =~= s);
    }
}

/// Filtering leaves no disabled gate behind: every field of the output, at
/// every depth, is either ungated or gated by an enabled feature.
pub proof fn lemma_filter_strips_disabled(v: JsonModel, feats: Set<Seq<char>>)
    ensures
        all_gates_enabled(filter_model(v, feats), feats),
    decreases v,
{
    match v {
        JsonModel::Obj(entries) => {
            lemma_filter_entries_strips(entries, feats);
            let f = filter_entries_model(entries, feats);
            assert forall|i: int| 0 <= i < f.len() implies keeps((#[trigger] f[i]).0, feats)
                && all_gates_enabled(f[i].1, feats) by {}
            assert(all_gates_enabled(JsonModel::Obj(f), feats));
        },
        JsonModel::Arr(items) => {
            lemma_filter_items_strips(items, feats);
            let f = filter_items_model(items, feats);
            assert forall|i: int| 0 <= i < f.len() implies all_gates_enabled(
                #[trigger] f[i],
                feats,
            ) by {}
            assert(all_gates_enabled(JsonModel::Arr(f), feats));
        },
        _ => {},
    }
}

/// Filtering an object's fields leaves no disabled gate behind.
proof fn lemma_filter_entries_strips(s: Seq<(Seq<char>, JsonModel)>, feats: Set<Seq<char>>)
    ensures
        forall|i: int|
            0 <= i < filter_entries_model(s, feats).len() ==> keeps(
                (#[trigger] filter_entries_model(s, feats)[i]).0,
                feats,
            ) && all_gates_enabled(filter_entries_model(s, feats)[i].1, feats),
    decreases s,
{
    if s.len() > 0 {
        lemma_filter_strips_disabled(s.last().1, feats);
        lemma_filter_entries_strips(s.drop_last(), feats);
        let prefix = filter_entries_model(s.drop_last(), feats);
        let whole = filter_entries_model(s, feats);
        assert forall|i: int| 0 <= i < whole.len() implies keeps(
            (#[trigger] whole[i]).0,
            feats,
        ) && all_gates_enabled(whole[i].1, feats) by {
            if i < prefix.len() {
                assert(whole[i] == prefix[i]);
            } else {
                assert(whole[i] == (s.last().0, filter_model(s.last().1, feats)));
            }
        }
    }
}

/// Filtering an array's elements leaves no disabled gate behind.
proof fn lemma_filter_items_strips(s: Seq<JsonModel>, feats: Set<Seq<char>>)
    ensures
        forall|i: int|
            0 <= i < filter_items_model(s, feats).len() ==> all_gates_enabled(
                #[trigger] filter_items_model(s, feats)[i],
                feats,
            ),
    decreases s,
{
    if s.len() > 0 {
        lemma_filter_strips_disabled(s.last(), feats);
        lemma_filter_items_strips(s.drop_last(), feats);
        let prefix = filter_items_model(s.drop_last(), feats);
        let whole = filter_items_model(s, feats);
        assert forall|i: int| 0 <= i < whole.len() implies all_gates_enabled(
            #[trigger] whole[i],
            feats,
        ) by {
            if i < prefix.len() {
                assert(whole[i] == prefix[i]);
            } else {
                assert(whole[i] == filter_model(s.last(), feats));
            }
        }
    }
}

} // verus!
