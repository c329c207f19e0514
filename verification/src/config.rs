//! Which environment settings belong to the node.
use vstd::prelude::*;
use crate::text::{is_char_prefix, starts_with};

verus! {

/// A setting of the node: its name starts with `DEDNS`.
pub open spec fn is_node_setting(name: Seq<char>) -> bool {
    is_char_prefix("DEDNS"@, name)
}

/// The model of a name-value pair.
pub open spec fn pair_view(p: (String, String)) -> (Seq<char>, Seq<char>) {
    (p.0@, p.1@)
}

/// The node's settings among `vars`, in their order.
pub open spec fn node_settings(vars: Seq<(Seq<char>, Seq<char>)>) -> Seq<(Seq<char>, Seq<char>)>
    decreases vars.len(),
{
    if vars.len() == 0 {
        seq![]
    } else if is_node_setting(vars.last().0) {
        node_settings(vars.drop_last()).push(vars.last())
    } else {
        node_settings(vars.drop_last())
    }
}

/// Picks the node's settings out of environment variables, keeping their
/// order.
pub fn dedns_settings(vars: &Vec<(String, String)>) -> (r: Vec<(String, String)>)
    ensures
        r@.map_values(|p: (String, String)| pair_view(p)) == node_settings(
            vars@.map_values(|p: (String, String)| pair_view(p)),
        ),
        r@.map_values(|p: (String, String)| pair_view(p)) == vars@.map_values(
            |p: (String, String)| pair_view(p),
        ).filter(|p: (Seq<char>, Seq<char>)| is_char_prefix("DEDNS"@, p.0)),
        forall|i: int|
            0 <= i < vars@.len() && is_char_prefix("DEDNS"@, #[trigger] vars@[i].0@) ==> r@.map_values(
                |p: (String, String)| pair_view(p),
            ).contains((vars@[i].0@, vars@[i].1@)),
        forall|j: int|
            0 <= j < r@.len() ==> is_char_prefix("DEDNS"@, #[trigger] r@[j].0@)
                && vars@.map_values(|p: (String, String)| pair_view(p)).contains(
                (r@[j].0@, r@[j].1@),
            ),
{
    let ghost all = vars@.map_values(|p: (String, String)| pair_view(p));
    let mut out: Vec<(String, String)> = Vec::new();
    let mut i: usize = 0;
    while i < vars.len()
        invariant
            i <= vars@.len(),
            all == vars@.map_values(|p: (String, String)| pair_view(p)),
            out@.map_values(|p: (String, String)| pair_view(p)) == node_settings(
                all.subrange(0, i as int),
            ),
        decreases vars@.len() - i,
    {
        let (name, value) = &vars[i];
        proof {
            assert(all.subrange(0, i + 1).drop_last() =~= all.subrange(0, i as int));
            assert(all.subrange(0, i + 1).last() == pair_view(vars@[i as int]));
        }
        if starts_with(name.as_str(), "DEDNS") {
            let ghost before = out@;
            out.push((name.clone(), value.clone()));
            proof {
                assert(out@.map_values(|p: (String, String)| pair_view(p)) =~= before.map_values(
                    |p: (String, String)| pair_view(p),
                ).push(pair_view(vars@[i as int])));
            }
        }
        i = i + 1;
    }
    proof {
        assert(all.subrange(0, vars@.len() as int) =~= all);
        lemma_node_settings(all);
        let res = out@.map_values(|p: (String, String)| pair_view(p));
        assert forall|i: int|
            0 <= i < vars@.len() && is_char_prefix(
                "DEDNS"@,
                #[trigger] vars@[i].0@,
            ) implies res.contains((vars@[i].0@, vars@[i].1@)) by {
            assert(all[i] == (vars@[i].0@, vars@[i].1@));
        }
        assert forall|j: int| 0 <= j < out@.len() implies is_char_prefix(
            "DEDNS"@,
            #[trigger] out@[j].0@,
        ) && all.contains((out@[j].0@, out@[j].1@)) by {
            assert(res[j] == (out@[j].0@, out@[j].1@));
        }
    }
    out
}

/// The node's settings are exactly the pairs whose name starts with
/// `DEDNS`, in the order they come: every such pair is kept, and every
/// kept pair is one of the given pairs with such a name.
pub proof fn lemma_node_settings(vars: Seq<(Seq<char>, Seq<char>)>)
    ensures
        node_settings(vars) == vars.filter(|p: (Seq<char>, Seq<char>)| is_char_prefix("DEDNS"@, p.0)),
        forall|i: int|
            0 <= i < vars.len() && is_char_prefix("DEDNS"@, #[trigger] vars[i].0) ==> node_settings(
                vars,
            ).contains(vars[i]),
        forall|j: int|
            0 <= j < node_settings(vars).len() ==> is_char_prefix(
                "DEDNS"@,
                #[trigger] node_settings(vars)[j].0,
            ) && vars.contains(node_settings(vars)[j]),
    decreases vars.len(),
{
    let pred = |p: (Seq<char>, Seq<char>)| is_char_prefix("DEDNS"@, p.0);
    reveal_with_fuel(Seq::filter, 1);
    if vars.len() > 0 {
        let init = vars.drop_last();
        lemma_node_settings(init);
        let out = node_settings(vars);
        let sub = node_settings(init);
        assert forall|i: int|
            0 <= i < vars.len() && is_char_prefix("DEDNS"@, #[trigger] vars[i].0) implies out.contains(
            vars[i],
        ) by {
            if i < vars.len() - 1 {
                assert(init[i] == vars[i]);
                let k = choose|k: int| 0 <= k < sub.len() && sub[k] == init[i];
                if is_node_setting(vars.last().0) {
                    assert(out[k] == sub[k]);
                }
            } else {
                assert(out[out.len() - 1] == vars[i]);
            }
        }
        assert forall|j: int| 0 <= j < out.len() implies is_char_prefix(
            "DEDNS"@,
            #[trigger] out[j].0,
        ) && vars.contains(out[j]) by {
            if j < sub.len() {
                assert(out[j] == sub[j]);
                let k = choose|k: int| 0 <= k < init.len() && init[k] == sub[j];
                assert(vars[k] == init[k]);
            } else {
                assert(out[j] == vars[vars.len() - 1]);
            }
        }
    }
}

} // verus!
