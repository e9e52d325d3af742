//! The query-string multi-map: text after the first `?` of a path, split on
//! `&` into parameters and on the first `=` of each parameter into a key and
//! a value, with repeated keys collecting their values in arrival order.

use vstd::prelude::*;
use vstd::string::StrSliceExecFns;
use crate::scan::{find_first, first_occurrence, lemma_first_occurrence, str_eq};

verus! {

/// The value(s) recorded under one key: a key seen once holds `Single`, a key
/// seen several times holds `Multiple` with the values in arrival order.
#[derive(Debug)]
pub enum Value<'a> {
    Single(&'a str),
    Multiple(Vec<&'a str>),
}

/// The views of a sequence of string slices.
pub open spec fn views_of(vs: Seq<&str>) -> Seq<Seq<char>> {
    Seq::new(vs.len(), |i: int| vs[i]@)
}

/// The list of values a `Value` stands for.
pub open spec fn value_values(v: Value) -> Seq<Seq<char>> {
    match v {
        Value::Single(s) => seq![s@],
        Value::Multiple(vs) => views_of(vs@),
    }
}

/// Shape invariant: `Multiple` is only ever built for a repeated key, so it
/// holds at least two values.
pub open spec fn value_wf(v: Value) -> bool {
    v matches Value::Multiple(vs) ==> vs@.len() >= 2
}

/// The parameters of a query text: the segments between occurrences of `&`.
/// Splitting never yields an empty list; text without `&` is one parameter.
pub open spec fn split_params(s: Seq<char>) -> Seq<Seq<char>>
    decreases s.len(),
    via split_params_decreases
{
    let i = first_occurrence(s, '&', '&');
    if i < s.len() {
        seq![s.take(i)] + split_params(s.skip(i + 1))
    } else {
        seq![s]
    }
}

#[via_fn]
proof fn split_params_decreases(s: Seq<char>) {
    lemma_first_occurrence(s, '&', '&');
}

/// The key and value of one parameter: split at the first `=`; a parameter
/// without `=` is all key, with the empty value.
pub open spec fn param_pair(p: Seq<char>) -> (Seq<char>, Seq<char>) {
    let i = first_occurrence(p, '=', '=');
    if i < p.len() {
        (p.take(i), p.skip(i + 1))
    } else {
        (p, Seq::empty())
    }
}

/// Record one key/value pair in the multi-map: a new key maps to the single
/// value, a repeated key appends the value to those already recorded.
pub open spec fn insert_param(
    m: Map<Seq<char>, Seq<Seq<char>>>,
    k: Seq<char>,
    v: Seq<char>,
) -> Map<Seq<char>, Seq<Seq<char>>> {
    if m.dom().contains(k) {
        m.insert(k, m[k].push(v))
    } else {
        m.insert(k, seq![v])
    }
}

/// The multi-map a list of parameters builds, inserted in order.
pub open spec fn query_map_of(params: Seq<Seq<char>>) -> Map<Seq<char>, Seq<Seq<char>>>
    decreases params.len(),
{
    if params.len() == 0 {
        Map::empty()
    } else {
        insert_param(
            query_map_of(params.drop_last()),
            param_pair(params.last()).0,
            param_pair(params.last()).1,
        )
    }
}

/// The multi-map denoted by a whole query text.
pub open spec fn spec_query(text: Seq<char>) -> Map<Seq<char>, Seq<Seq<char>>> {
    query_map_of(split_params(text))
}

/// The values of the parameters whose key is `k`, in arrival order.
pub open spec fn values_for(params: Seq<Seq<char>>, k: Seq<char>) -> Seq<Seq<char>>
    decreases params.len(),
{
    if params.len() == 0 {
        Seq::empty()
    } else {
        let front = values_for(params.drop_last(), k);
        if param_pair(params.last()).0 == k {
            front.push(param_pair(params.last()).1)
        } else {
            front
        }
    }
}

/// A parsed query string: a multi-map from keys to their values, all of them
/// slices of the text the map was built from.
#[derive(Debug)]
pub struct QueryString<'a> {
    data: Vec<(&'a str, Value<'a>)>,
}

spec fn keys_distinct(data: Seq<(&str, Value)>) -> bool {
    forall|i: int, j: int| 0 <= i < j < data.len() ==> data[i].0@ != data[j].0@
}

spec fn values_wf(data: Seq<(&str, Value)>) -> bool {
    forall|i: int| 0 <= i < data.len() ==> value_wf(#[trigger] data[i].1)
}

spec fn has_key(data: Seq<(&str, Value)>, k: Seq<char>) -> bool {
    exists|i: int| 0 <= i < data.len() && #[trigger] data[i].0@ == k
}

spec fn key_index(data: Seq<(&str, Value)>, k: Seq<char>) -> int {
    choose|i: int| 0 <= i < data.len() && #[trigger] data[i].0@ == k
}

spec fn map_of(data: Seq<(&str, Value)>) -> Map<Seq<char>, Seq<Seq<char>>> {
    Map::new(
        |k: Seq<char>| has_key(data, k),
        |k: Seq<char>| value_values(data[key_index(data, k)].1),
    )
}

proof fn lemma_key_index(data: Seq<(&str, Value)>, k: Seq<char>, i: int)
    requires
        keys_distinct(data),
        0 <= i < data.len(),
        data[i].0@ == k,
    ensures
        has_key(data, k),
        key_index(data, k) == i,
{
    assert(has_key(data, k));
    let j = key_index(data, k);
    assert(0 <= j < data.len() && data[j].0@ == k);
}

impl<'a> View for QueryString<'a> {
    type V = Map<Seq<char>, Seq<Seq<char>>>;

    closed spec fn view(&self) -> Map<Seq<char>, Seq<Seq<char>>> {
        map_of(self.data@)
    }
}

impl<'a> QueryString<'a> {
    /// Well-formedness: keys are pairwise distinct and every `Multiple` holds
    /// at least two values.
    pub closed spec fn wf(&self) -> bool {
        keys_distinct(self.data@) && values_wf(self.data@)
    }

    /// Look the key up; no mutation. Returns the recorded `Value` exactly
    /// when the key is in the map.
    pub fn get(&self, key: &str) -> (r: Option<&Value<'a>>)
        requires
            self.wf(),
        ensures
            match r {
                Some(v) => self@.dom().contains(key@) && value_values(*v) == self@[key@]
                    && value_wf(*v),
                None => !self@.dom().contains(key@),
            },
    {
        let n = self.data.len();
        let mut i: usize = 0;
        while i < n
            invariant
                i <= n,
                n == self.data@.len(),
                self.wf(),
                forall|j: int| 0 <= j < i ==> self.data@[j].0@ != key@,
            decreases n - i,
        {
            if str_eq(self.data[i].0, key) {
                proof {
                    lemma_key_index(self.data@, key@, i as int);
                }
                return Some(&self.data[i].1);
            }
            i = i + 1;
        }
        proof {
            assert(!has_key(self.data@, key@));
        }
        None
    }

    /// Build the multi-map from the text after the first `?` of a path.
    pub fn from_text(input: &'a str) -> (r: QueryString<'a>)
        ensures
            r@ == spec_query(input@),
            r.wf(),
    {
        let mut qs = QueryString { data: Vec::new() };
        let ghost mut done: Seq<Seq<char>> = Seq::empty();
        let n = input.unicode_len();
        let mut start: usize = 0;
        proof {
            assert(qs@ =~~= query_map_of(done));
            assert(input@.skip(0) =~= input@);
        }
        loop
            invariant
                start <= n,
                n == input@.len(),
                qs.wf(),
                qs@ == query_map_of(done),
                split_params(input@) == done + split_params(input@.skip(start as int)),
            decreases n - start,
        {
            let rest = input.substring_char(start, n);
            proof {
                assert(rest@ =~= input@.skip(start as int));
            }
            let m = rest.unicode_len();
            let i = find_first(rest, '&', '&');
            if i < m {
                let param = rest.substring_char(0, i);
                qs.insert_param_text(param);
                proof {
                    assert(param@ =~= rest@.take(i as int));
                    assert(split_params(rest@) == seq![param@] + split_params(
                        rest@.skip(i + 1),
                    ));
                    lemma_query_map_push(done, param@);
                    done = done.push(param@);
                    assert(rest@.skip(i + 1) =~= input@.skip(start + i + 1));
                    assert(done + split_params(input@.skip(start + i + 1)) =~= split_params(
                        input@,
                    ));
                }
                start = start + i + 1;
            } else {
                qs.insert_param_text(rest);
                proof {
                    assert(split_params(rest@) == seq![rest@]);
                    lemma_query_map_push(done, rest@);
                    done = done.push(rest@);
                    assert(done =~= split_params(input@));
                }
                return qs;
            }
        }
    }

    /// Split one parameter into key and value and record it.
    fn insert_param_text(&mut self, param: &'a str)
        requires
            old(self).wf(),
        ensures
            final(self).wf(),
            final(self)@ == insert_param(
                old(self)@,
                param_pair(param@).0,
                param_pair(param@).1,
            ),
    {
        let pl = param.unicode_len();
        let j = find_first(param, '=', '=');
        if j < pl {
            let key = param.substring_char(0, j);
            let value = param.substring_char(j + 1, pl);
            proof {
                assert(key@ =~= param@.take(j as int));
            }
            self.insert_pair(key, value);
        } else {
            let value = "";
            proof {
                reveal_strlit("");
                assert(value@ =~= Seq::<char>::empty());
            }
            self.insert_pair(param, value);
        }
    }

    /// Record one key/value pair, converting `Single` to `Multiple` on the
    /// first repetition of a key and appending on later ones.
    fn insert_pair(&mut self, key: &'a str, value: &'a str)
        requires
            old(self).wf(),
        ensures
            final(self).wf(),
            final(self)@ == insert_param(old(self)@, key@, value@),
    {
        let n = self.data.len();
        let mut i: usize = 0;
        while i < n
            invariant
                i <= n,
                n == self.data@.len(),
                self == old(self),
                self.wf(),
                forall|j: int| 0 <= j < i ==> self.data@[j].0@ != key@,
            decreases n - i,
        {
            if str_eq(self.data[i].0, key) {
                proof {
                    lemma_key_index(self.data@, key@, i as int);
                }
                let (k0, v0) = self.data.remove(i);
                let ghost old_vals = value_values(v0);
                let v1 = match v0 {
                    Value::Single(prev) => {
                        let mut vs: Vec<&'a str> = Vec::new();
                        vs.push(prev);
                        vs.push(value);
                        proof {
                            assert(views_of(vs@) =~= old_vals.push(value@));
                        }
                        Value::Multiple(vs)
                    },
                    Value::Multiple(prev_vec) => {
                        let mut vs = prev_vec;
                        vs.push(value);
                        proof {
                            assert(views_of(vs@) =~= old_vals.push(value@));
                        }
                        Value::Multiple(vs)
                    },
                };
                self.data.insert(i, (k0, v1));
                proof {
                    lemma_seq_remove_insert(old(self).data@, i as int, (k0, v1));
                    lemma_map_of_update(old(self).data@, i as int, v1, value@);
                }
                return;
            }
            i = i + 1;
        }
        self.data.push((key, Value::Single(value)));
        proof {
            lemma_map_of_push(old(self).data@, key, Value::Single(value));
        }
    }
}

proof fn lemma_seq_remove_insert<T>(s: Seq<T>, i: int, e: T)
    requires
        0 <= i < s.len(),
    ensures
        s.remove(i).insert(i, e) =~= s.update(i, e),
{
}

/// Inserting the pair of one more parameter extends the multi-map of the
/// parameters before it.
proof fn lemma_query_map_push(done: Seq<Seq<char>>, p: Seq<char>)
    ensures
        query_map_of(done.push(p)) == insert_param(
            query_map_of(done),
            param_pair(p).0,
            param_pair(p).1,
        ),
{
    assert(done.push(p).drop_last() =~= done);
    assert(done.push(p).last() == p);
}

/// Updating the entry that holds `key` with one more value under it changes
/// the map of the entries exactly as `insert_param` says.
proof fn lemma_map_of_update(data: Seq<(&str, Value)>, i: int, v1: Value, value: Seq<char>)
    requires
        keys_distinct(data),
        values_wf(data),
        0 <= i < data.len(),
        value_values(v1) == value_values(data[i].1).push(value),
    ensures
        map_of(data.update(i, (data[i].0, v1))) =~~= insert_param(
            map_of(data),
            data[i].0@,
            value,
        ),
        keys_distinct(data.update(i, (data[i].0, v1))),
{
    let key = data[i].0@;
    let d1 = data.update(i, (data[i].0, v1));
    assert(forall|j: int| 0 <= j < data.len() ==> d1[j].0 == data[j].0);
    lemma_key_index(data, key, i);
    assert(map_of(data).dom().contains(key));
    assert(keys_distinct(d1));
    assert forall|k: Seq<char>| has_key(d1, k) <==> has_key(data, k) by {
        if has_key(d1, k) {
            let j = choose|j: int| 0 <= j < d1.len() && #[trigger] d1[j].0@ == k;
            assert(data[j].0@ == k);
        }
        if has_key(data, k) {
            let j = choose|j: int| 0 <= j < data.len() && #[trigger] data[j].0@ == k;
            assert(d1[j].0@ == k);
        }
    }
    assert forall|k: Seq<char>| has_key(d1, k) implies map_of(d1)[k] == insert_param(
        map_of(data),
        key,
        value,
    )[k] by {
        let j = choose|j: int| 0 <= j < data.len() && #[trigger] data[j].0@ == k;
        lemma_key_index(data, k, j);
        lemma_key_index(d1, k, j);
        if k == key {
            assert(j == i);
            assert(map_of(d1)[k] == value_values(v1));
            assert(insert_param(map_of(data), key, value)[k] == value_values(
                data[i].1,
            ).push(value));
        } else {
            assert(j != i);
            assert(d1[j].1 == data[j].1);
        }
    }
}

/// Appending an entry for a key that no entry holds adds that key to the map
/// of the entries, with the single value under it.
proof fn lemma_map_of_push<'a>(data: Seq<(&'a str, Value<'a>)>, key: &'a str, v: Value<'a>)
    requires
        keys_distinct(data),
        values_wf(data),
        !has_key(data, key@),
        value_wf(v),
    ensures
        map_of(data.push((key, v))) =~~= map_of(data).insert(key@, value_values(v)),
        keys_distinct(data.push((key, v))),
        values_wf(data.push((key, v))),
{
    let d1 = data.push((key, v));
    assert(forall|j: int| 0 <= j < data.len() ==> d1[j] == data[j]);
    assert(d1[data.len() as int].0@ == key@);
    assert(keys_distinct(d1));
    assert(values_wf(d1));
    assert forall|k: Seq<char>| has_key(d1, k) <==> (has_key(data, k) || k == key@) by {
        if has_key(d1, k) {
            let j = choose|j: int| 0 <= j < d1.len() && #[trigger] d1[j].0@ == k;
            if j < data.len() {
                assert(data[j].0@ == k);
            }
        }
        if has_key(data, k) {
            let j = choose|j: int| 0 <= j < data.len() && #[trigger] data[j].0@ == k;
            assert(d1[j].0@ == k);
        }
        assert(d1[data.len() as int].0@ == key@);
    }
    assert forall|k: Seq<char>| has_key(d1, k) implies map_of(d1)[k] == map_of(data).insert(
        key@,
        value_values(v),
    )[k] by {
        lemma_key_index(d1, k, key_index(d1, k));
        if k == key@ {
            lemma_key_index(d1, k, data.len() as int);
        } else {
            let j = choose|j: int| 0 <= j < data.len() && #[trigger] data[j].0@ == k;
            lemma_key_index(data, k, j);
            lemma_key_index(d1, k, j);
        }
    }
}

} // verus!
