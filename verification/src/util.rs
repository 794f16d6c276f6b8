//! Small helpers shared by the servers.
use vstd::prelude::*;
use vstd::string::*;
use crate::text::same_text;

verus! {

/// Why a helper failed.
#[derive(Debug)]
pub enum Error {
    /// A failure, with its message.
    Other(String),
}

/// The texts `parse_bool` reads as true.
pub open spec fn true_text(s: Seq<char>) -> bool {
    s == "1"@ || s == "t"@ || s == "T"@ || s == "TRUE"@ || s == "true"@ || s == "True"@
}

/// The texts `parse_bool` reads as false.
pub open spec fn false_text(s: Seq<char>) -> bool {
    s == "0"@ || s == "f"@ || s == "F"@ || s == "FALSE"@ || s == "false"@ || s == "False"@
}

/// The message when `s` is not a boolean.
pub open spec fn not_bool_text(s: Seq<char>) -> Seq<char> {
    "no valid boolean value: "@ + s
}

/// The boolean that `s` spells: `1`, `t`, `T`, `TRUE`, `true`, `True` are true, and
/// `0`, `f`, `F`, `FALSE`, `false`, `False` are false; any other text is an error.
pub fn parse_bool(s: &str) -> (r: Result<bool, Error>)
    ensures
        true_text(s@) ==> (r matches Ok(b) && b),
        !true_text(s@) && false_text(s@) ==> (r matches Ok(b) && !b),
        !true_text(s@) && !false_text(s@) ==> (r matches Err(Error::Other(m)) && m@ == not_bool_text(s@)),
{
    proof {
        reveal_strlit("1");
        reveal_strlit("t");
        reveal_strlit("T");
        reveal_strlit("TRUE");
        reveal_strlit("true");
        reveal_strlit("True");
        reveal_strlit("0");
        reveal_strlit("f");
        reveal_strlit("F");
        reveal_strlit("FALSE");
        reveal_strlit("false");
        reveal_strlit("False");
        reveal_strlit("no valid boolean value: ");
    }
    if same_text(s, "1") || same_text(s, "t") || same_text(s, "T") || same_text(s, "TRUE") || same_text(s, "true")
        || same_text(s, "True") {
        Ok(true)
    } else if same_text(s, "0") || same_text(s, "f") || same_text(s, "F") || same_text(s, "FALSE") || same_text(s, "false")
        || same_text(s, "False") {
        Ok(false)
    } else {
        let mut m = String::from_str("no valid boolean value: ");
        m.append(s);
        Err(Error::Other(m))
    }
}


/// The name and value pairs of the `application/x-www-form-urlencoded` text `b`, in order.
pub uninterp spec fn form_pairs(b: Seq<u8>) -> Seq<(Seq<char>, Seq<char>)>;

/// `url::form_urlencoded::parse`, made owned: the pairs of the form-encoded text `b`, in
/// order, with `+` read as a space and percent escapes decoded (invalid UTF-8 replaced).
/// Only that the pairs depend on `b` alone is claimed.
#[verifier::external_body]
fn parse_form(b: &[u8]) -> (r: Vec<(String, String)>)
    ensures
        r@.map_values(|p: (String, String)| (p.0@, p.1@)) == form_pairs(b@),
{
    url::form_urlencoded::parse(b).into_owned().collect()
}

/// The parameters of a query: each name with the value of its last pair.
pub open spec fn pairs_last_wins(ps: Seq<(Seq<char>, Seq<char>)>) -> Map<Seq<char>, Seq<char>>
    decreases ps.len(),
{
    if ps.len() == 0 {
        Map::empty()
    } else {
        pairs_last_wins(ps.drop_last()).insert(ps.last().0, ps.last().1)
    }
}

/// The parameters `m` with the pairs `ps` added where `m` lacks their name: the first
/// pair of a name wins.
pub open spec fn add_missing(m: Map<Seq<char>, Seq<char>>, ps: Seq<(Seq<char>, Seq<char>)>) -> Map<Seq<char>, Seq<char>>
    decreases ps.len(),
{
    if ps.len() == 0 {
        m
    } else {
        let m1 = add_missing(m, ps.drop_last());
        if m1.contains_key(ps.last().0) {
            m1
        } else {
            m1.insert(ps.last().0, ps.last().1)
        }
    }
}

/// The parameters of a request with query text `query` and, for a form, the body `form`:
/// those of the query, then those of the form whose name the query lacks.
pub open spec fn request_params_spec(query: Seq<u8>, form: Option<Seq<u8>>) -> Map<Seq<char>, Seq<char>> {
    let q = pairs_last_wins(form_pairs(query));
    match form {
        Some(f) => add_missing(q, form_pairs(f)),
        None => q,
    }
}

/// The list `v` holds each name of `m` once, with its value, and nothing else.
pub open spec fn lists_params(v: Seq<(String, String)>, m: Map<Seq<char>, Seq<char>>) -> bool {
    &&& forall|i: int, j: int| 0 <= i < j < v.len() ==> (#[trigger] v[i]).0@ != (#[trigger] v[j]).0@
    &&& forall|i: int| 0 <= i < v.len() ==> m.contains_key((#[trigger] v[i]).0@) && m[v[i].0@] == v[i].1@
    &&& forall|k: Seq<char>| #[trigger] m.contains_key(k) ==> exists|i: int| 0 <= i < v.len() && (#[trigger] v[i]).0@ == k
}

/// The place of the pair named `k` in `v`.
fn find_name(v: &Vec<(String, String)>, k: &str) -> (r: Option<usize>)
    ensures
        r matches Some(i) ==> i < v@.len() && v@[i as int].0@ == k@,
        r is None ==> forall|i: int| 0 <= i < v@.len() ==> (#[trigger] v@[i]).0@ != k@,
{
    let mut i: usize = 0;
    while i < v.len()
        invariant
            i <= v@.len(),
            forall|j: int| 0 <= j < i ==> (#[trigger] v@[j]).0@ != k@,
        decreases v@.len() - i,
    {
        if same_text(v[i].0.as_str(), k) {
            return Some(i);
        }
        i = i + 1;
    }
    None
}

/// The parameters of a request: those of its query text `query` (the last pair of a
/// name wins), then, where the request is a form with body `form_body`, those of the
/// form whose name the query lacks (the first pair of a name wins). Each name comes once.
pub fn request_params(query: &[u8], form_body: Option<&[u8]>) -> (r: Vec<(String, String)>)
    ensures
        lists_params(
            r@,
            request_params_spec(
                query@,
                match form_body {
                    Some(f) => Some(f@),
                    None => None,
                },
            ),
        ),
{
    let qs = parse_form(query);
    let ghost qv = form_pairs(query@);
    let mut r: Vec<(String, String)> = Vec::new();
    let mut i: usize = 0;
    while i < qs.len()
        invariant
            i <= qs@.len(),
            qs@.map_values(|p: (String, String)| (p.0@, p.1@)) == qv,
            lists_params(r@, pairs_last_wins(qv.take(i as int))),
        decreases qs@.len() - i,
    {
        let ghost m0 = pairs_last_wins(qv.take(i as int));
        assert(qv.take(i as int + 1).drop_last() =~= qv.take(i as int));
        assert(qv.take(i as int + 1).last() == (qs@[i as int].0@, qs@[i as int].1@));
        let ghost m1 = pairs_last_wins(qv.take(i as int + 1));
        assert(m1 == m0.insert(qs@[i as int].0@, qs@[i as int].1@));
        let ghost r0 = r@;
        match find_name(&r, qs[i].0.as_str()) {
            Some(j) => {
                r.set(j, (qs[i].0.clone(), qs[i].1.clone()));
                assert forall|k: Seq<char>| #[trigger] m1.contains_key(k) implies exists|x: int| 0 <= x < r@.len() && (#[trigger] r@[x]).0@ == k by {
                    if k != qs@[i as int].0@ {
                        let x = choose|x: int| 0 <= x < r0.len() && (#[trigger] r0[x]).0@ == k;
                        assert(r@[x] == r0[x]);
                    } else {
                        assert(r@[j as int].0@ == k);
                    }
                }
            },
            None => {
                r.push((qs[i].0.clone(), qs[i].1.clone()));
                assert forall|k: Seq<char>| #[trigger] m1.contains_key(k) implies exists|x: int| 0 <= x < r@.len() && (#[trigger] r@[x]).0@ == k by {
                    if k != qs@[i as int].0@ {
                        let x = choose|x: int| 0 <= x < r0.len() && (#[trigger] r0[x]).0@ == k;
                        assert(r@[x] == r0[x]);
                    } else {
                        assert(r@[r0.len() as int].0@ == k);
                    }
                }
            },
        }
        i = i + 1;
    }
    assert(qv.take(qs@.len() as int) =~= qv);
    let ghost q = pairs_last_wins(qv);
    match form_body {
        None => r,
        Some(f) => {
            let fs = parse_form(f);
            let ghost fv = form_pairs(f@);
            let mut g: usize = 0;
            while g < fs.len()
                invariant
                    g <= fs@.len(),
                    fs@.map_values(|p: (String, String)| (p.0@, p.1@)) == fv,
                    lists_params(r@, add_missing(q, fv.take(g as int))),
                decreases fs@.len() - g,
            {
                let ghost m0 = add_missing(q, fv.take(g as int));
                assert(fv.take(g as int + 1).drop_last() =~= fv.take(g as int));
                assert(fv.take(g as int + 1).last() == (fs@[g as int].0@, fs@[g as int].1@));
                let ghost r0 = r@;
                match find_name(&r, fs[g].0.as_str()) {
                    Some(j) => {
                        assert(m0.contains_key(fs@[g as int].0@));
                    },
                    None => {
                        assert(!m0.contains_key(fs@[g as int].0@)) by {
                            if m0.contains_key(fs@[g as int].0@) {
                                let x = choose|x: int| 0 <= x < r0.len() && (#[trigger] r0[x]).0@ == fs@[g as int].0@;
                            }
                        }
                        let ghost m1 = m0.insert(fs@[g as int].0@, fs@[g as int].1@);
                        r.push((fs[g].0.clone(), fs[g].1.clone()));
                        assert forall|k: Seq<char>| #[trigger] m1.contains_key(k) implies exists|x: int| 0 <= x < r@.len() && (#[trigger] r@[x]).0@ == k by {
                            if k != fs@[g as int].0@ {
                                let x = choose|x: int| 0 <= x < r0.len() && (#[trigger] r0[x]).0@ == k;
                                assert(r@[x] == r0[x]);
                            } else {
                                assert(r@[r0.len() as int].0@ == k);
                            }
                        }
                    },
                }
                g = g + 1;
            }
            assert(fv.take(fs@.len() as int) =~= fv);
            r
        },
    }
}

} // verus!
