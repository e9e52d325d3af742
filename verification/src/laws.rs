//! General properties of the parser, stated over its specification model and
//! proved once for all inputs.

use vstd::prelude::*;
use crate::method::spec_method;
use crate::query_string::{
    insert_param, param_pair, query_map_of, spec_query, split_params, values_for,
};
use crate::request::{spec_next_word, spec_parse, ParseError, RequestModel};
use crate::scan::{first_occurrence, lemma_first_occurrence_unique};

verus! {

/// No known verb contains a space or a carriage return.
proof fn lemma_verb_has_no_delim(verb: Seq<char>)
    requires
        spec_method(verb) is Some,
    ensures
        forall|j: int| 0 <= j < verb.len() ==> !(verb[j] == ' ' || verb[j] == '\r'),
{
    reveal_strlit("GET");
    reveal_strlit("POST");
    reveal_strlit("PUT");
    reveal_strlit("DELETE");
    reveal_strlit("PATCH");
    reveal_strlit("HEAD");
    reveal_strlit("CONNECT");
    reveal_strlit("OPTIONS");
    reveal_strlit("TRACE");
}

/// A request line built from a known verb and a delimiter-free second token
/// reaches the path/query split, with that token as the path token.
proof fn lemma_line_tokens(verb: Seq<char>, mid: Seq<char>)
    requires
        spec_method(verb) is Some,
        forall|j: int| 0 <= j < mid.len() ==> !(mid[j] == ' ' || mid[j] == '\r'),
    ensures
        spec_parse(verb + " "@ + mid + " HTTP/1.1\r\n\r\n"@) == ({
            let q = first_occurrence(mid, '?', '?');
            if q < mid.len() {
                Ok::<RequestModel, ParseError>(
                    RequestModel {
                        path: mid.take(q),
                        query: Some(spec_query(mid.skip(q + 1))),
                        method: spec_method(verb).unwrap(),
                    },
                )
            } else {
                Ok::<RequestModel, ParseError>(
                    RequestModel { path: mid, query: None, method: spec_method(verb).unwrap() },
                )
            }
        }),
{
    reveal_strlit(" ");
    reveal_strlit(" HTTP/1.1\r\n\r\n");
    reveal_strlit("HTTP/1.1");
    lemma_verb_has_no_delim(verb);
    let tail = " HTTP/1.1\r\n\r\n"@;
    let line = verb + " "@ + mid + tail;
    let vl = verb.len() as int;
    let pl = mid.len() as int;

    assert forall|j: int| 0 <= j < vl implies !(line[j] == ' ' || line[j] == '\r') by {
        assert(line[j] == verb[j]);
    }
    assert(line[vl] == ' ');
    lemma_first_occurrence_unique(line, ' ', '\r', vl);
    let rest1 = mid + tail;
    assert(line.take(vl) =~= verb);
    assert(line.skip(vl + 1) =~= rest1);
    assert(spec_next_word(line) == Some((verb, rest1)));

    assert forall|j: int| 0 <= j < pl implies !(rest1[j] == ' ' || rest1[j] == '\r') by {
        assert(rest1[j] == mid[j]);
    }
    assert(rest1[pl] == tail[0]);
    lemma_first_occurrence_unique(rest1, ' ', '\r', pl);
    let rest2 = tail.skip(1);
    assert(rest1.take(pl) =~= mid);
    assert(rest1.skip(pl + 1) =~= rest2);
    assert(spec_next_word(rest1) == Some((mid, rest2)));

    assert forall|j: int| 0 <= j < 8 implies !(rest2[j] == ' ' || rest2[j] == '\r') by {
        assert(rest2[j] == tail[j + 1]);
    }
    assert(rest2[8] == tail[9]);
    lemma_first_occurrence_unique(rest2, ' ', '\r', 8);
    assert(rest2.take(8) =~= "HTTP/1.1"@);
    assert(spec_next_word(rest2) matches Some(pair) && pair.0 == "HTTP/1.1"@);
}

/// Every request line built from a known verb and a delimiter-free,
/// query-free path parses to exactly that verb and that path, with no query
/// string.
pub proof fn lemma_known_verb_parses(verb: Seq<char>, path: Seq<char>)
    requires
        spec_method(verb) is Some,
        forall|j: int| 0 <= j < path.len() ==> path[j] != ' ',
        forall|j: int| 0 <= j < path.len() ==> path[j] != '\r',
        forall|j: int| 0 <= j < path.len() ==> path[j] != '?',
    ensures
        spec_parse(verb + " "@ + path + " HTTP/1.1\r\n\r\n"@) == Ok::<RequestModel, ParseError>(
            RequestModel { path: path, query: None, method: spec_method(verb).unwrap() },
        ),
{
    lemma_line_tokens(verb, path);
    lemma_first_occurrence_unique(path, '?', '?', path.len() as int);
}

/// A second token holding `?` splits at its first `?`: the text before it is
/// the path and the text after it — which may itself hold `?` — builds the
/// query-string multi-map.
pub proof fn lemma_query_splits_at_first_question_mark(
    verb: Seq<char>,
    path: Seq<char>,
    query: Seq<char>,
)
    requires
        spec_method(verb) is Some,
        forall|j: int| 0 <= j < path.len() ==> path[j] != ' ',
        forall|j: int| 0 <= j < path.len() ==> path[j] != '\r',
        forall|j: int| 0 <= j < path.len() ==> path[j] != '?',
        forall|j: int| 0 <= j < query.len() ==> query[j] != ' ',
        forall|j: int| 0 <= j < query.len() ==> query[j] != '\r',
    ensures
        spec_parse(verb + " "@ + (path + "?"@ + query) + " HTTP/1.1\r\n\r\n"@) == Ok::<
            RequestModel,
            ParseError,
        >(
            RequestModel {
                path: path,
                query: Some(spec_query(query)),
                method: spec_method(verb).unwrap(),
            },
        ),
{
    reveal_strlit("?");
    let mid = path + "?"@ + query;
    let pl = path.len() as int;
    assert forall|j: int| 0 <= j < mid.len() implies !(mid[j] == ' ' || mid[j] == '\r') by {
        if j < pl {
            assert(mid[j] == path[j]);
        } else if j == pl {
            assert(mid[j] == '?');
        } else {
            assert(mid[j] == query[j - pl - 1]);
        }
    }
    lemma_line_tokens(verb, mid);
    assert forall|j: int| 0 <= j < pl implies mid[j] != '?' by {
        assert(mid[j] == path[j]);
    }
    assert(mid[pl] == '?');
    lemma_first_occurrence_unique(mid, '?', '?', pl);
    assert(mid.take(pl) =~= path);
    assert(mid.skip(pl + 1) =~= query);
}

/// A text with fewer than three delimited tokens parses to `InvalidRequest`.
pub proof fn lemma_too_few_tokens(s: Seq<char>)
    requires
        spec_next_word(s) is None || spec_next_word(spec_next_word(s).unwrap().1) is None
            || spec_next_word(
            spec_next_word(spec_next_word(s).unwrap().1).unwrap().1,
        ) is None,
    ensures
        spec_parse(s) == Err::<RequestModel, ParseError>(ParseError::InvalidRequest),
{
}

/// Whenever three tokens are present but the third is not exactly
/// "HTTP/1.1", parsing yields `InvalidProtocolError` — before the method is
/// ever looked at.
pub proof fn lemma_bad_protocol(s: Seq<char>)
    requires
        spec_next_word(s) is Some,
        spec_next_word(spec_next_word(s).unwrap().1) is Some,
        spec_next_word(spec_next_word(spec_next_word(s).unwrap().1).unwrap().1) is Some,
        spec_next_word(spec_next_word(spec_next_word(s).unwrap().1).unwrap().1).unwrap().0
            != "HTTP/1.1"@,
    ensures
        spec_parse(s) == Err::<RequestModel, ParseError>(ParseError::InvalidProtocolError),
{
}

/// Whenever three tokens are present, the protocol is right, and the first
/// token is no known verb, parsing yields `InvalidMethodError`.
pub proof fn lemma_bad_method(s: Seq<char>)
    requires
        spec_next_word(s) is Some,
        spec_next_word(spec_next_word(s).unwrap().1) is Some,
        spec_next_word(spec_next_word(spec_next_word(s).unwrap().1).unwrap().1) is Some,
        spec_next_word(spec_next_word(spec_next_word(s).unwrap().1).unwrap().1).unwrap().0
            == "HTTP/1.1"@,
        spec_method(spec_next_word(s).unwrap().0) is None,
    ensures
        spec_parse(s) == Err::<RequestModel, ParseError>(ParseError::InvalidMethodError),
{
}

proof fn lemma_query_map_values(params: Seq<Seq<char>>, k: Seq<char>)
    ensures
        query_map_of(params).dom().contains(k) <==> values_for(params, k).len() > 0,
        query_map_of(params).dom().contains(k) ==> query_map_of(params)[k] == values_for(
            params,
            k,
        ),
    decreases params.len(),
{
    if params.len() == 0 {
    } else {
        lemma_query_map_values(params.drop_last(), k);
        let m = query_map_of(params.drop_last());
        let pk = param_pair(params.last()).0;
        let pv = param_pair(params.last()).1;
        assert(query_map_of(params) == insert_param(m, pk, pv));
        if pk == k && !m.dom().contains(k) {
            assert(values_for(params.drop_last(), k) =~= Seq::<Seq<char>>::empty());
            assert(values_for(params, k) =~= seq![pv]);
        }
    }
}

/// The multi-map law: every key a query text mentions is in the map, bound to
/// exactly the values its parameters carry, in arrival order; no other key is
/// in the map.
pub proof fn lemma_query_multi_map(text: Seq<char>, k: Seq<char>)
    ensures
        spec_query(text).dom().contains(k) <==> values_for(split_params(text), k).len() > 0,
        spec_query(text).dom().contains(k) ==> spec_query(text)[k] == values_for(
            split_params(text),
            k,
        ),
{
    lemma_query_map_values(split_params(text), k);
}

/// A query text that is one parameter without `=` — the empty text included —
/// maps that whole text, as the key, to the one-element list holding the
/// empty value.
pub proof fn lemma_param_without_eq(p: Seq<char>)
    requires
        forall|j: int| 0 <= j < p.len() ==> p[j] != '&',
        forall|j: int| 0 <= j < p.len() ==> p[j] != '=',
    ensures
        spec_query(p) == Map::<Seq<char>, Seq<Seq<char>>>::empty().insert(
            p,
            seq![Seq::<char>::empty()],
        ),
{
    lemma_first_occurrence_unique(p, '&', '&', p.len() as int);
    lemma_first_occurrence_unique(p, '=', '=', p.len() as int);
    assert(split_params(p) == seq![p]);
    assert(param_pair(p) == (p, Seq::<char>::empty()));
    let params = seq![p];
    assert(params.drop_last() =~= Seq::<Seq<char>>::empty());
    assert(params.last() == p);
    assert(query_map_of(params.drop_last()) == Map::<Seq<char>, Seq<Seq<char>>>::empty());
}

} // verus!
