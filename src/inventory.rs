use vstd::prelude::*;

use crate::abi::{trait_name, PluginTrait};

verus! {

/// The positions, in inventory order, of the factories among `0..n` whose
/// trait name is that of `t`.
pub open spec fn matching(names: Seq<String>, t: PluginTrait, n: int) -> Seq<usize>
    decreases n,
{
    if n <= 0 {
        seq![]
    } else if names[n - 1]@ == trait_name(t) {
        matching(names, t, n - 1).push((n - 1) as usize)
    } else {
        matching(names, t, n - 1)
    }
}

/// Selects, from a plugin's inventory of factories given by their trait names,
/// the ones whose registrations the aggregated factory of `trait_id` makes, in
/// inventory order; `None` when there is none, for which the aggregated
/// factory returns a null array.
pub fn factories_for(trait_names: &Vec<String>, trait_id: PluginTrait) -> (r: Option<Vec<usize>>)
    ensures
        match r {
            Some(v) => v@ == matching(trait_names@, trait_id, trait_names@.len() as int) && v@.len() > 0,
            None => matching(trait_names@, trait_id, trait_names@.len() as int).len() == 0,
        },
{
    let wanted = trait_id.as_str();
    let mut out: Vec<usize> = Vec::new();
    let mut i: usize = 0;
    while i < trait_names.len()
        invariant
            i <= trait_names@.len(),
            wanted@ == trait_name(trait_id),
            out@ == matching(trait_names@, trait_id, i as int),
        decreases trait_names@.len() - i,
    {
        let name = String::from_str(wanted);
        if trait_names[i] == name {
            out.push(i);
        }
        i = i + 1;
    }
    if out.len() == 0 {
        None
    } else {
        Some(out)
    }
}

} // verus!
