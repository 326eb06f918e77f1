use vstd::prelude::*;
use crate::text::{chars_of, push_char};
use crate::value::{find_member, items_view, lemma_data_view, lemma_find_member, names_view, JsonData, Value};

verus! {

/// The segments of a path: the pieces between its `/` characters, empty ones included.
pub open spec fn path_segments(p: Seq<char>) -> Seq<Seq<char>>
    decreases p.len(),
{
    if p.len() == 0 {
        seq![Seq::empty()]
    } else {
        let segs = path_segments(p.drop_last());
        if p.last() == '/' {
            segs.push(Seq::empty())
        } else {
            segs.update(segs.len() - 1, segs.last().push(p.last()))
        }
    }
}

/// Follows the segments through objects. A segment met at a value that is not an object is
/// passed over and the value kept; a name that the object lacks ends the walk with nothing.
pub open spec fn walk(v: Value, segs: Seq<Seq<char>>) -> Option<Value>
    decreases segs.len(),
{
    if segs.len() == 0 {
        Some(v)
    } else {
        match v {
            Value::Data(ks, vs) => match find_member(ks, segs[0]) {
                Some(i) => if i < vs.len() {
                    walk(vs[i], segs.drop_first())
                } else {
                    None
                },
                None => None,
            },
            _ => walk(v, segs.drop_first()),
        }
    }
}

/// The string that the path leads to, if it leads to a string.
pub open spec fn path_text(v: Value, path: Seq<char>) -> Option<Seq<char>> {
    match walk(v, path_segments(path)) {
        Some(Value::Text(t)) => Some(t),
        _ => None,
    }
}

fn split_path(path: &str) -> (r: Vec<String>)
    ensures
        names_view(r@) == path_segments(path@),
{
    let cs = chars_of(path);
    let mut segs: Vec<String> = Vec::new();
    segs.push(String::new());
    let mut i: usize = 0;
    proof {
        assert(cs@.take(0) =~= Seq::<char>::empty());
        assert(names_view(segs@) =~= seq![Seq::<char>::empty()]);
    }
    while i < cs.len()
        invariant
            cs@ == path@,
            i <= cs@.len(),
            segs@.len() >= 1,
            names_view(segs@) == path_segments(cs@.take(i as int)),
        decreases cs.len() - i,
    {
        let c = cs[i];
        let ghost before = names_view(segs@);
        proof {
            assert(cs@.take(i + 1).drop_last() =~= cs@.take(i as int));
        }
        if c == '/' {
            segs.push(String::new());
            proof {
                assert(names_view(segs@) =~= before.push(Seq::empty()));
            }
        } else {
            let n = segs.len();
            match segs.pop() {
                Some(mut last) => {
                    push_char(&mut last, c);
                    segs.push(last);
                    proof {
                        assert(names_view(segs@) =~= before.update(n - 1, before.last().push(c)));
                    }
                },
                None => {},
            }
        }
        i = i + 1;
    }
    proof {
        assert(cs@.take(i as int) =~= cs@);
    }
    segs
}

/// The position of the name `k` among `ks`, if any.
fn find_name(ks: &Vec<String>, k: &String) -> (r: Option<usize>)
    ensures
        r matches Some(j) ==> find_member(names_view(ks@), k@) == Some(j as int),
        r is None ==> find_member(names_view(ks@), k@) is None,
{
    let ghost m = names_view(ks@);
    let mut i: usize = 0;
    while i < ks.len()
        invariant
            i <= ks@.len(),
            m == names_view(ks@),
            forall|j: int| 0 <= j < i ==> m[j] != k@,
        decreases ks.len() - i,
    {
        if ks[i] == *k {
            proof {
                assert(m[i as int] == k@);
                lemma_find_member(m, k@);
            }
            return Some(i);
        }
        i = i + 1;
    }
    proof {
        lemma_find_member(m, k@);
    }
    None
}

/// Looks up a `/`-separated path of member names and gives the string found there.
pub fn get_path_as_text(json: &JsonData, path: &str) -> (r: Option<String>)
    ensures
        match r {
            Some(t) => path_text(json@, path@) == Some(t@),
            None => path_text(json@, path@) is None,
        },
{
    let segs = split_path(path);
    let ghost all = names_view(segs@);
    let mut cur: &JsonData = json;
    let mut i: usize = 0;
    proof {
        assert(all.skip(0) =~= all);
    }
    while i < segs.len()
        invariant
            i <= segs@.len(),
            all == names_view(segs@),
            all == path_segments(path@),
            walk(json@, all) == walk(cur@, all.skip(i as int)),
        decreases segs.len() - i,
    {
        proof {
            assert(all.skip(i as int).drop_first() =~= all.skip(i + 1));
            assert(all.skip(i as int)[0] == segs@[i as int]@);
        }
        match cur {
            JsonData::Data(ks, vs) => {
                proof {
                    lemma_data_view(*ks, *vs);
                }
                match find_name(ks, &segs[i]) {
                    Some(j) => {
                        if j < vs.len() {
                            cur = &vs[j];
                        } else {
                            proof {
                                assert(cur@ == Value::Data(names_view(ks@), items_view(vs@)));
                                assert(find_member(names_view(ks@), all.skip(i as int)[0]) == Some(j as int));
                                assert(items_view(vs@).len() == vs@.len());
                                assert(walk(cur@, all.skip(i as int)) is None);
                            }
                            return None;
                        }
                    },
                    None => {
                        proof {
                            assert(walk(cur@, all.skip(i as int)) is None);
                        }
                        return None;
                    },
                }
            },
            _ => {},
        }
        i = i + 1;
    }
    proof {
        assert(all.skip(i as int).len() == 0);
    }
    match cur {
        JsonData::Text(t) => Some(t.clone()),
        _ => None,
    }
}

} // verus!
