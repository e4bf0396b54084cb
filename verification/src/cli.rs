//! The command line: parameters of a query, and numbers for its statistics.
use vstd::prelude::*;

use crate::query::numeral::{is_json_number, json_number};
use crate::query::surface::completion::{trim_chars, trimmed};
use crate::query::surface::lower::{param_views, ParamValue};
use crate::query::surface::lowering::{param_named, ParamV};
use crate::text::{chars_of, decimal, decimal_text, string_from};

verus! {

/// The value of a parameter. `true`, `false`, `null`, a JSON number and a text
/// in quotes stand for themselves, with the space around them dropped; anything
/// else is a text as it stands.
pub open spec fn param_value(s: Seq<char>) -> ParamV {
    let t = trimmed(s);
    if t == "true"@ {
        ParamV::Bool(true)
    } else if t == "false"@ {
        ParamV::Bool(false)
    } else if t == "null"@ {
        ParamV::Null
    } else if t.len() >= 2 && t[0] == '"' && t.last() == '"' {
        ParamV::Str(t.subrange(1, t.len() - 1))
    } else if json_number(t) {
        ParamV::Number(t)
    } else {
        ParamV::Str(s)
    }
}

pub fn parse_param_value(s: &str) -> (v: ParamValue)
    ensures
        v@ == param_value(s@),
{
    let chars = chars_of(s);
    assert(chars@.take(chars@.len() as int) =~= s@);
    let t = trim_chars(&chars, chars.len());
    if *t.as_str() == *"true" {
        return ParamValue::Bool(true);
    }
    if *t.as_str() == *"false" {
        return ParamValue::Bool(false);
    }
    if *t.as_str() == *"null" {
        return ParamValue::Null;
    }
    let inside = chars_of(t.as_str());
    let k: usize = inside.len();
    if k >= 2 && inside[0] == '"' && inside[k - 1] == '"' {
        return ParamValue::Str(string_from(inside.as_slice(), 1, k - 1));
    }
    if is_json_number(t.as_str()) {
        ParamValue::Number(t)
    } else {
        ParamValue::Str(s.to_owned())
    }
}

/// Where a character first stands, at or after `i`.
pub open spec fn place_of(s: Seq<char>, c: char, i: int) -> Option<int>
    decreases s.len() - i,
{
    if !(0 <= i < s.len()) {
        None
    } else if s[i] == c {
        Some(i)
    } else {
        place_of(s, c, i + 1)
    }
}

/// A parameter put under its name, in place of an earlier one.
pub open spec fn with_param(p: Seq<(Seq<char>, ParamV)>, n: Seq<char>, v: ParamV, i: int) -> Seq<
    (Seq<char>, ParamV),
>
    decreases p.len() - i,
{
    if !(0 <= i < p.len()) {
        p.push((n, v))
    } else if p[i].0 == n {
        p.update(i, (n, v))
    } else {
        with_param(p, n, v, i + 1)
    }
}

/// The parameters that a list of `NAME=VALUE` gives, or why it gives none.
pub open spec fn params_of(raw: Seq<String>) -> Result<
    Seq<(Seq<char>, ParamV)>,
    Seq<char>,
>
    decreases raw.len(),
{
    if raw.len() == 0 {
        Ok(Seq::empty())
    } else {
        match params_of(raw.drop_last()) {
            Err(m) => Err(m),
            Ok(p) => {
                let e = raw.last()@;
                match place_of(e, '=', 0) {
                    None => Err("--param expects NAME=VALUE, got `"@ + e + "`"@),
                    Some(k) => if k == 0 {
                        Err("--param has an empty name: `"@ + e + "`"@)
                    } else {
                        Ok(with_param(p, e.take(k), param_value(e.skip(k + 1)), 0))
                    },
                }
            },
        }
    }
}

fn find_equals(c: &Vec<char>) -> (r: Option<usize>)
    ensures
        match place_of(c@, '=', 0) {
            Some(k) => r matches Some(x) && x == k && x < c@.len(),
            None => r is None,
        },
{
    let mut i: usize = 0;
    while i < c.len()
        invariant
            i <= c@.len(),
            place_of(c@, '=', 0) == place_of(c@, '=', i as int),
        decreases c@.len() - i,
    {
        if c[i] == '=' {
            return Some(i);
        }
        i += 1;
    }
    None
}

#[verifier::spinoff_prover]
fn put_param(p: Vec<(String, ParamValue)>, n: String, v: ParamValue) -> (out: Vec<
    (String, ParamValue),
>)
    ensures
        param_views(out@) == with_param(param_views(p@), n@, v@, 0),
{
    let ghost all = param_views(p@);
    let ghost nv = n@;
    let ghost vv = v@;
    let mut out = p;
    let mut i: usize = 0;
    while i < out.len()
        invariant
            i <= out@.len(),
            all == param_views(out@),
            all == param_views(p@),
            nv == n@,
            vv == v@,
            with_param(all, nv, vv, 0) == with_param(all, nv, vv, i as int),
        decreases out@.len() - i,
    {
        assert(all[i as int] == (out@[i as int].0@, out@[i as int].1@));
        if *out[i].0.as_str() == *n.as_str() {
            out.set(i, (n, v));
            assert(param_views(out@) =~= all.update(i as int, (nv, vv)));
            return out;
        }
        i += 1;
    }
    out.push((n, v));
    assert(param_views(out@) =~= all.push((nv, vv)));
    out
}

fn quoting(before: &str, e: &str) -> (s: String)
    ensures
        s@ == before@ + e@ + "`"@,
{
    let mut s = before.to_owned();
    s.append(e);
    s.append("`");
    s
}

proof fn params_broken(raw: Seq<String>, i: int, m: Seq<char>)
    requires
        0 <= i <= raw.len(),
        params_of(raw.take(i)) == Err::<Seq<(Seq<char>, ParamV)>, Seq<char>>(m),
    ensures
        params_of(raw) == Err::<Seq<(Seq<char>, ParamV)>, Seq<char>>(m),
    decreases raw.len() - i,
{
    if i < raw.len() {
        assert(raw.take(i + 1).drop_last() =~= raw.take(i));
        params_broken(raw, i + 1, m);
    } else {
        assert(raw.take(i) =~= raw);
    }
}

/// Reads the parameters of a query.
#[verifier::spinoff_prover]
pub fn parse_params(raw: &Vec<String>) -> (r: Result<Vec<(String, ParamValue)>, String>)
    ensures
        match params_of(raw@) {
            Ok(p) => r matches Ok(v) && param_views(v@) == p,
            Err(m) => r matches Err(s) && s@ == m,
        },
{
    let mut out: Vec<(String, ParamValue)> = Vec::new();
    let mut i: usize = 0;
    proof {
        assert(raw@.take(0).len() == 0);
        assert(param_views(out@) =~= Seq::empty());
    }
    while i < raw.len()
        invariant
            i <= raw@.len(),
            params_of(raw@.take(i as int)) == Ok::<Seq<(Seq<char>, ParamV)>, Seq<char>>(
                param_views(out@),
            ),
        decreases raw@.len() - i,
    {
        proof {
            let next = raw@.take(i + 1);
            assert(next.drop_last() =~= raw@.take(i as int));
            assert(next.last() == raw@[i as int]);
        }
        let entry = raw[i].as_str();
        let chars = chars_of(entry);
        let _size: usize = chars.len();
        match find_equals(&chars) {
            None => {
                let m = quoting("--param expects NAME=VALUE, got `", entry);
                proof {
                    params_broken(raw@, i + 1, m@);
                }
                return Err(m);
            },
            Some(k) => {
                if k == 0 {
                    let m = quoting("--param has an empty name: `", entry);
                    proof {
                        params_broken(raw@, i + 1, m@);
                    }
                    return Err(m);
                }
                let name = string_from(chars.as_slice(), 0, k);
                let value = string_from(chars.as_slice(), k + 1, chars.len());
                assert(name@ =~= entry@.take(k as int));
                assert(value@ =~= entry@.skip(k + 1));
                out = put_param(out, name, parse_param_value(value.as_str()));
            },
        }
        i += 1;
    }
    assert(raw@.take(i as int) =~= raw@);
    Ok(out)
}

/// A numeral with a comma before each group of three digits.
pub open spec fn grouped_text(s: Seq<char>, n: int) -> Seq<char>
    decreases n,
{
    if n <= 0 {
        Seq::empty()
    } else {
        let i = n - 1;
        let rest = grouped_text(s, i);
        if i > 0 && (s.len() - i) % 3 == 0 {
            rest.push(',').push(s[i])
        } else {
            rest.push(s[i])
        }
    }
}

pub fn fmt_int(n: u64) -> (out: String)
    ensures
        out@ == grouped_text(decimal_text(n as nat), decimal_text(n as nat).len() as int),
{
    let s = decimal(n);
    let c = chars_of(s.as_str());
    let mut out = String::new();
    let mut i: usize = 0;
    assert(out@ =~= grouped_text(c@, 0));
    while i < c.len()
        invariant
            i <= c@.len(),
            c@ == decimal_text(n as nat),
            out@ == grouped_text(c@, i as int),
        decreases c@.len() - i,
    {
        if i > 0 && (c.len() - i) % 3 == 0 {
            out.push(',');
        }
        out.push(c[i]);
        i += 1;
    }
    out
}

/// The usage text.
pub fn brief_usage() -> (s: &'static str)
    ensures
        s@ == "Usage:\n  jsq <FILE> <QUERY> [--stats] [--limit N]\n  jsq --format-only <QUERY>\n  jsq --explain <FILE> <QUERY>\n  jsq --help"@,
{
    "Usage:\n  jsq <FILE> <QUERY> [--stats] [--limit N]\n  jsq --format-only <QUERY>\n  jsq --explain <FILE> <QUERY>\n  jsq --help"
}

/// A parameter is read under its name: of several of one name the last counts,
/// and other names keep theirs.
pub proof fn last_parameter_counts(
    p: Seq<(Seq<char>, ParamV)>,
    n: Seq<char>,
    v: ParamV,
    other: Seq<char>,
    i: int,
)
    requires
        0 <= i <= p.len(),
    ensures
        param_named(with_param(p, n, v, i), n, i) == Some(v),
        other != n ==> param_named(with_param(p, n, v, i), other, i) == param_named(p, other, i),
    decreases p.len() - i,
{
    let out = with_param(p, n, v, i);
    if i < p.len() {
        if p[i].0 == n {
            assert(out[i] == (n, v));
            if other != n {
                same_behind(p, out, other, i + 1);
            }
        } else {
            last_parameter_counts(p, n, v, other, i + 1);
            kept_before(p, n, v, i + 1, i);
            assert(out[i] == p[i]);
        }
    } else {
        assert(out[i] == (n, v));
        if other != n {
            assert(param_named(out, other, i + 1) is None);
        }
    }
}

proof fn same_behind(
    p: Seq<(Seq<char>, ParamV)>,
    q: Seq<(Seq<char>, ParamV)>,
    n: Seq<char>,
    i: int,
)
    requires
        0 <= i,
        p.len() == q.len(),
        forall|k: int| i <= k < p.len() ==> p[k] == q[k],
    ensures
        param_named(p, n, i) == param_named(q, n, i),
    decreases p.len() - i,
{
    if i < p.len() {
        assert(p[i] == q[i]);
        same_behind(p, q, n, i + 1);
    }
}

proof fn kept_before(p: Seq<(Seq<char>, ParamV)>, n: Seq<char>, v: ParamV, i: int, k: int)
    requires
        0 <= k < i <= p.len(),
    ensures
        with_param(p, n, v, i).len() >= p.len(),
        with_param(p, n, v, i)[k] == p[k],
    decreases p.len() - i,
{
    if i < p.len() && p[i].0 != n {
        kept_before(p, n, v, i + 1, k);
    }
}

/// `NAME=VALUE` gives the value under the name; the first `=` separates them.
/// A later entry of the same name takes the place of an earlier one.
pub proof fn entries_give_their_parameter(
    raw: Seq<String>,
    e: String,
    name: Seq<char>,
    value: Seq<char>,
    other: Seq<char>,
)
    requires
        params_of(raw) is Ok,
        e@ == name + seq!['='] + value,
        name.len() > 0,
        !name.contains('='),
    ensures
        params_of(raw.push(e)) is Ok,
        param_named(params_of(raw.push(e))->Ok_0, name, 0) == Some(param_value(value)),
        other != name ==> param_named(params_of(raw.push(e))->Ok_0, other, 0) == param_named(
            params_of(raw)->Ok_0,
            other,
            0,
        ),
{
    let k = name.len() as int;
    assert(raw.push(e).drop_last() =~= raw);
    assert(e@[k] == '=');
    first_place(e@, '=', 0, k);
    assert(e@.take(k) =~= name);
    assert(e@.skip(k + 1) =~= value);
    last_parameter_counts(params_of(raw)->Ok_0, name, param_value(value), other, 0);
}

proof fn first_place(s: Seq<char>, c: char, i: int, k: int)
    requires
        0 <= i <= k < s.len(),
        s[k] == c,
        forall|j: int| i <= j < k ==> s[j] != c,
    ensures
        place_of(s, c, i) == Some(k),
    decreases k - i,
{
    if i < k {
        first_place(s, c, i + 1, k);
    }
}

/// The length of a grouped numeral up to digit `n`.
proof fn grouped_len(s: Seq<char>, n: int)
    requires
        1 <= n <= s.len(),
    ensures
        grouped_text(s, n).len() == s.len() + (s.len() - 1) / 3 - ((s.len() - n) + (s.len() - n)
            / 3),
    decreases n,
{
    if n > 1 {
        grouped_len(s, n - 1);
    } else {
        assert(grouped_text(s, 0).len() == 0);
    }
}

/// Commas stand before each group of three digits, counted from the end, and
/// nowhere else; without them the digits are those of the number.
pub proof fn commas_part_groups_of_three(s: Seq<char>)
    requires
        s.len() > 0,
        forall|i: int| 0 <= i < s.len() ==> s[i] != ',',
    ensures
        ({
            let t = grouped_text(s, s.len() as int);
            &&& t.filter(|c: char| c != ',') == s
            &&& forall|i: int|
                0 <= i < t.len() ==> ((#[trigger] t[i]) == ',' <==> 0 < i && (t.len() - i) % 4 == 0)
        }),
{
    let n = s.len() as int;
    let t = grouped_text(s, n);
    digits_kept(s, n);
    assert(s.take(n) =~= s);
    grouped_len(s, n);
    comma_places(s, n);
}

proof fn digits_kept(s: Seq<char>, n: int)
    requires
        0 <= n <= s.len(),
        forall|i: int| 0 <= i < s.len() ==> s[i] != ',',
    ensures
        grouped_text(s, n).filter(|c: char| c != ',') == s.take(n),
    decreases n,
{
    reveal_with_fuel(Seq::<char>::filter, 3);
    if n == 0 {
        assert(grouped_text(s, n).filter(|c: char| c != ',') =~= s.take(n));
    } else {
        let i = n - 1;
        digits_kept(s, i);
        let rest = grouped_text(s, i);
        assert(rest.push(',').drop_last() =~= rest);
        assert(rest.push(',').push(s[i]).drop_last() =~= rest.push(','));
        assert(rest.push(s[i]).drop_last() =~= rest);
        assert(s.take(n) =~= s.take(i).push(s[i]));
        let keep = |c: char| c != ',';
        assert(rest.push(',').filter(keep) == rest.filter(keep));
        assert(s[i] != ',');
        if i > 0 && (s.len() - i) % 3 == 0 {
            assert(grouped_text(s, n) == rest.push(',').push(s[i]));
            assert(rest.push(',').push(s[i]).filter(keep) == rest.filter(keep).push(s[i]));
        } else {
            assert(grouped_text(s, n) == rest.push(s[i]));
            assert(rest.push(s[i]).filter(keep) == rest.filter(keep).push(s[i]));
        }
    }
}

/// Where the commas stand in what is written of a numeral.
proof fn comma_places(s: Seq<char>, n: int)
    requires
        1 <= n <= s.len(),
        forall|i: int| 0 <= i < s.len() ==> s[i] != ',',
    ensures
        forall|i: int|
            0 <= i < grouped_text(s, n).len() ==> ((#[trigger] grouped_text(s, n)[i]) == ',' <==> 0
                < i && (s.len() + (s.len() - 1) / 3 - i) % 4 == 0),
    decreases n,
{
    let t = grouped_text(s, n);
    let all = s.len() + (s.len() - 1) / 3;
    grouped_len(s, n);
    if n > 1 {
        comma_places(s, n - 1);
        grouped_len(s, n - 1);
        let rest = grouped_text(s, n - 1);
        let d = s.len() - (n - 1);
        let m = rest.len() as int;
        assert(all - m == d + d / 3);
        assert forall|i: int| 0 <= i < t.len() implies ((#[trigger] t[i]) == ',' <==> 0 < i && (all
            - i) % 4 == 0) by {
            if i < m {
                assert(t[i] == rest[i]);
            } else if d % 3 == 0 {
                if i == m {
                    assert(all - i == 4 * (d / 3));
                } else {
                    assert(i == m + 1);
                    assert(all - i == 4 * (d / 3) - 1);
                }
            } else {
                assert(i == m);
                assert(all - i == 4 * (d / 3) + d % 3);
            }
        }
    } else {
        assert(grouped_text(s, 0).len() == 0);
        assert(t =~= seq![s[0]]);
    }
}

} // verus!
