//! The embedding client's decisions: building the provider request, checking
//! the provider's response (one vector per input, in input order, plus a
//! token-usage count), and pricing the call. Sending the request and charging
//! the account within the caller's transaction are the surrounding program's
//! work; every value that crosses that boundary is checked here.
//!
//! Prices and costs are integers in the price's smallest unit per thousand
//! tokens, so no floating point enters the cost: the cost of a call is
//! `tokens * price_per_1000 / 1000`, rounded down.

use vstd::prelude::*;
use vstd::arithmetic::div_mod::lemma_div_is_ordered;
use vstd::string::StringExecFns;

use crate::jsonval::Json;
use crate::jsonval::json_arr;
use crate::jsonval::json_get;
use crate::jsonval::json_u64;
use crate::jsonval::obj_get;
use crate::jsonval::take_key;

verus! {

/// Why an embedding response was rejected.
#[derive(Debug, PartialEq, Eq, Structural)]
pub enum EmbedError {
    /// The response lacks a numeric `usage.total_tokens`.
    MalformedUsage,
    /// The response lacks a `data` array of elements with an `embedding`.
    MalformedData,
    /// The `data` array does not hold one vector per input.
    VectorCountMismatch,
}

/// The cost of an embedding call: `tokens * price_per_1000 / 1000` in the
/// price's smallest unit, rounded down; absent when it cannot be held in a
/// 64-bit word.
pub fn embedding_cost(total_tokens: u64, price_per_1000: u64) -> (r: Option<u64>)
    ensures
        (match r {
            Option::Some(c) => c as int == total_tokens as int * price_per_1000 as int / 1000,
            Option::None => total_tokens as int * price_per_1000 as int / 1000 > u64::MAX as int,
        }),
{
    let a: u128 = total_tokens as u128;
    let b: u128 = price_per_1000 as u128;
    proof {
        assert(a * b <= 0xffff_ffff_ffff_ffffu128 * 0xffff_ffff_ffff_ffffu128) by (nonlinear_arith)
            requires
                a <= 0xffff_ffff_ffff_ffffu128,
                b <= 0xffff_ffff_ffff_ffffu128,
        ;
    }
    let prod: u128 = a * b;
    let c: u128 = prod / 1000;
    if c > u64::MAX as u128 {
        None
    } else {
        Some(c as u64)
    }
}

/// The cost of one chat completion: prompt tokens at the input price plus
/// completion tokens at the output price, per thousand tokens, rounded down;
/// absent when it cannot be held in a 64-bit word.
pub fn chat_cost(prompt_tokens: u64, completion_tokens: u64, price_in: u64, price_out: u64) -> (r:
    Option<u64>)
    ensures
        (match r {
            Option::Some(c) => c as int == (prompt_tokens as int * price_in as int
                + completion_tokens as int * price_out as int) / 1000,
            Option::None => (prompt_tokens as int * price_in as int + completion_tokens as int
                * price_out as int) / 1000 > u64::MAX as int,
        }),
{
    let ghost total = prompt_tokens as int * price_in as int + completion_tokens as int
        * price_out as int;
    let a: u128 = prompt_tokens as u128;
    let b: u128 = price_in as u128;
    let x: u128 = completion_tokens as u128;
    let y: u128 = price_out as u128;
    proof {
        assert(a * b <= 0xffff_ffff_ffff_ffffu128 * 0xffff_ffff_ffff_ffffu128) by (nonlinear_arith)
            requires
                a <= 0xffff_ffff_ffff_ffffu128,
                b <= 0xffff_ffff_ffff_ffffu128,
        ;
        assert(x * y <= 0xffff_ffff_ffff_ffffu128 * 0xffff_ffff_ffff_ffffu128) by (nonlinear_arith)
            requires
                x <= 0xffff_ffff_ffff_ffffu128,
                y <= 0xffff_ffff_ffff_ffffu128,
        ;
    }
    let p1: u128 = a * b;
    let p2: u128 = x * y;
    if p1 > u128::MAX - p2 {
        proof {
            assert(total > u128::MAX as int);
            lemma_div_is_ordered(1000 * (u64::MAX as int + 1), total, 1000);
        }
        return None;
    }
    let sum: u128 = p1 + p2;
    let c: u128 = sum / 1000;
    if c > u64::MAX as u128 {
        None
    } else {
        Some(c as u64)
    }
}

/// The request body for the embedding provider: the configured model name
/// and the input payload (a single query string or the array of chunks).
pub fn embedding_request(model: &str, input: Json) -> (r: Json)
    ensures
        json_get(r, "model"@) matches Option::Some(m) && m matches Json::Str(s) && s@ == model@,
        json_get(r, "input"@) == Option::Some(input),
{
    let mut es: Vec<(String, Json)> = Vec::new();
    es.push((String::from_str("model"), Json::Str(String::from_str(model))));
    es.push((String::from_str("input"), input));
    let r = Json::Obj(es);
    proof {
        reveal_strlit("model");
        reveal_strlit("input");
        assert("model"@[0] == 'm');
        assert("input"@[0] == 'i');
        let ev = r->Obj_0@;
        assert(ev[0].0@ == "model"@);
        assert(ev.drop_first()[0] == ev[1]);
        assert(ev[1].0@ == "input"@);
        assert(ev[0].0@ != "input"@);
        assert(ev.len() == 2);
        assert(ev[1].1 == input);
        assert(obj_get(ev.drop_first(), "input"@) == Option::Some(input));
        assert(json_get(r, "input"@) == Option::Some(input));
    }
    r
}

/// The token count an embedding response reports under `usage.total_tokens`.
pub open spec fn embed_usage_tokens(r: Json) -> Option<int> {
    match json_get(r, "usage"@) {
        Option::Some(u) => match json_get(u, "total_tokens"@) {
            Option::Some(t) => json_u64(t),
            Option::None => Option::None,
        },
        Option::None => Option::None,
    }
}

/// The vectors an embedding response carries: the `embedding` member of each
/// element of the `data` array, in response order.
pub open spec fn embed_vectors(r: Json) -> Option<Seq<Json>> {
    match json_get(r, "data"@) {
        Option::Some(d) => match json_arr(d) {
            Option::Some(items) => if forall|i: int|
                0 <= i < items.len() ==> json_get(#[trigger] items[i], "embedding"@) is Some {
                Option::Some(items.map_values(|x: Json| json_get(x, "embedding"@)->Some_0))
            } else {
                Option::None
            },
            Option::None => Option::None,
        },
        Option::None => Option::None,
    }
}

/// Check an embedding response against the batch that was sent: accepted
/// exactly when the response reports a numeric token usage and carries one
/// vector per input; the accepted vectors come back in response order.
pub fn parse_embedding_response(resp: Json, expected: usize) -> (r: Result<
    (Vec<Json>, u64),
    EmbedError,
>)
    ensures
        (match r {
            Result::Ok(out) => {
                &&& embed_usage_tokens(resp) == Option::Some(out.1 as int)
                &&& embed_vectors(resp) == Option::Some(out.0@)
                &&& out.0@.len() == expected
            },
            Result::Err(e) => {
                &&& (e == EmbedError::MalformedUsage <==> embed_usage_tokens(resp) is None)
                &&& (e == EmbedError::MalformedData <==> embed_usage_tokens(resp) is Some
                    && embed_vectors(resp) is None)
                &&& (e == EmbedError::VectorCountMismatch <==> embed_usage_tokens(resp) is Some
                    && embed_vectors(resp) is Some && embed_vectors(resp)->Some_0.len()
                    != expected)
            },
        }),
{
    let tokens_opt: Option<u64> = match resp.get("usage") {
        Some(u) => match u.get("total_tokens") {
            Some(t) => t.as_u64(),
            None => None,
        },
        None => None,
    };
    let tokens = match tokens_opt {
        Some(t) => t,
        None => {
            return Err(EmbedError::MalformedUsage);
        },
    };
    let data = match take_key(resp, "data") {
        Some(d) => d,
        None => {
            return Err(EmbedError::MalformedData);
        },
    };
    let ghost gdata = data;
    let mut items = match data {
        Json::Arr(v) => v,
        _ => {
            return Err(EmbedError::MalformedData);
        },
    };
    let ghost full = items@;
    proof {
        assert(json_arr(gdata) == Option::Some(full));
        assert(full.skip(0) =~= full);
    }
    let mut vecs: Vec<Json> = Vec::new();
    while items.len() > 0
        invariant
            vecs@.len() + items@.len() == full.len(),
            items@ == full.skip(vecs@.len() as int),
            forall|j: int|
                0 <= j < vecs@.len() ==> json_get(#[trigger] full[j], "embedding"@)
                    == Option::Some(vecs@[j]),
            embed_usage_tokens(resp) == Option::Some(tokens as int),
            json_get(resp, "data"@) == Option::Some(gdata),
            json_arr(gdata) == Option::Some(full),
        decreases items@.len(),
    {
        let ghost k = vecs@.len() as int;
        let item = items.remove(0);
        proof {
            assert(item == full[k]);
            assert(items@ =~= full.skip(k + 1));
        }
        match take_key(item, "embedding") {
            Some(v) => {
                vecs.push(v);
            },
            None => {
                proof {
                    assert(json_get(full[k], "embedding"@) is None);
                    assert(embed_vectors(resp) is None);
                }
                return Err(EmbedError::MalformedData);
            },
        }
    }
    proof {
        assert(forall|j: int|
            0 <= j < full.len() ==> json_get(#[trigger] full[j], "embedding"@) is Some);
        assert(embed_vectors(resp) == Option::Some(
            full.map_values(|x: Json| json_get(x, "embedding"@)->Some_0),
        ));
        assert(vecs@ =~= full.map_values(|x: Json| json_get(x, "embedding"@)->Some_0));
    }
    if vecs.len() != expected {
        return Err(EmbedError::VectorCountMismatch);
    }
    Ok((vecs, tokens))
}

} // verus!
