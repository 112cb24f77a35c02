//! The list of running virtual machines, grouped by their `Env` tag, with the
//! environments and the machines within each in lexicographic order.
use crate::assoc::{
    assoc_get, assoc_put, find_key, has_key, keys_of, lemma_assoc_put_unique, lemma_key_pos,
    unique_keys,
};
use crate::pipeline::{InstanceRecord, find_tag, tag_value};
use crate::text::{
    lemma_seq_le_total, lemma_seq_le_trans, seq_le, sorted_spec, sorted_strings, str_le,
};
use vstd::prelude::*;
use vstd::string::*;

verus! {

broadcast use vstd::seq_lib::group_to_multiset_ensures;

/// Why the list cannot be made.
pub enum InventoryError {
    /// A virtual machine lacks its `Env` or its `Name` tag.
    MissingTag,
    /// No virtual machine is running.
    NoRunningInstances,
}

/// A machine's (name, identifier) pairs grouped under their environment.
pub type Groups = Vec<(String, Vec<(String, String)>)>;

/// The view of a list of (name, identifier) pairs.
pub open spec fn pairs_view(v: Vec<(String, String)>) -> Seq<(Seq<char>, Seq<char>)> {
    v@.map_values(|p: (String, String)| (p.0@, p.1@))
}

/// The view of groups.
pub open spec fn groups_view(g: Seq<(String, Vec<(String, String)>)>) -> Seq<
    (Seq<char>, Seq<(Seq<char>, Seq<char>)>),
> {
    g.map_values(|e: (String, Vec<(String, String)>)| (e.0@, pairs_view(e.1)))
}

/// The identifier of a machine, or a stand-in where it has none.
pub open spec fn id_or_unknown(r: InstanceRecord) -> Seq<char> {
    match r.instance_id {
        Some(id) => id@,
        None => "Unknown instance id"@,
    }
}

/// The machines of `rs` grouped by `Env` tag, each group in the order
/// reported and the groups in the order in which their environment first
/// appears; `None` where a machine lacks its `Env` or `Name` tag.
pub open spec fn env_groups(rs: Seq<InstanceRecord>) -> Option<
    Seq<(Seq<char>, Seq<(Seq<char>, Seq<char>)>)>,
>
    decreases rs.len(),
{
    if rs.len() == 0 {
        Some(Seq::empty())
    } else {
        match env_groups(rs.drop_last()) {
            Some(g) => {
                let r = rs.last();
                match (tag_value(r.tags@, "Env"@), tag_value(r.tags@, "Name"@)) {
                    (Some(env), Some(name)) => {
                        let items = if has_key(g, env@) {
                            assoc_get(g, env@)
                        } else {
                            Seq::empty()
                        };
                        Some(assoc_put(g, env@, items.push((name@, id_or_unknown(r)))))
                    },
                    _ => None,
                }
            },
            None => None,
        }
    }
}

proof fn lemma_env_groups_fail(rs: Seq<InstanceRecord>, m: int)
    requires
        0 <= m <= rs.len(),
        env_groups(rs.subrange(0, m)) is None,
    ensures
        env_groups(rs) is None,
    decreases rs.len() - m,
{
    if m < rs.len() {
        assert(rs.subrange(0, m + 1).drop_last() =~= rs.subrange(0, m));
        lemma_env_groups_fail(rs, m + 1);
    } else {
        assert(rs.subrange(0, m) =~= rs);
    }
}

/// Groups the running machines by their `Env` tag.
pub fn running_instances(records: &Vec<InstanceRecord>) -> (r: Result<Groups, InventoryError>)
    ensures
        match env_groups(records@) {
            Some(g) => r matches Ok(v) && groups_view(v@) == g && unique_keys(g),
            None => r matches Err(InventoryError::MissingTag),
        },
{
    let mut groups: Groups = Vec::new();
    let mut i: usize = 0;
    assert(groups_view(groups@) =~= Seq::<(Seq<char>, Seq<(Seq<char>, Seq<char>)>)>::empty());
    while i < records.len()
        invariant
            i <= records@.len(),
            env_groups(records@.subrange(0, i as int)) == Some(groups_view(groups@)),
            unique_keys(groups_view(groups@)),
        decreases records@.len() - i,
    {
        assert(records@.subrange(0, i + 1).drop_last() =~= records@.subrange(0, i as int));
        let rec = &records[i];
        let env = find_tag(&rec.tags, "Env");
        let name = find_tag(&rec.tags, "Name");
        let (env, name) = match (env, name) {
            (Some(env), Some(name)) => (env, name),
            _ => {
                proof {
                    lemma_env_groups_fail(records@, i + 1);
                }
                return Err(InventoryError::MissingTag);
            },
        };
        let instance_id = match &rec.instance_id {
            Some(id) => id.clone(),
            None => String::from_str("Unknown instance id"),
        };
        let ghost g = groups_view(groups@);
        let ghost item = (name@, instance_id@);
        proof {
            lemma_assoc_put_unique(
                g,
                env@,
                (if has_key(g, env@) {
                    assoc_get(g, env@)
                } else {
                    Seq::empty()
                }).push(item),
            );
        }
        match find_key(&groups, env.as_str()) {
            Some(p) => {
                proof {
                    lemma_key_pos(g, p as int);
                }
                let ghost before = pairs_view(groups@[p as int].1);
                groups[p].1.push((name, instance_id));
                assert(pairs_view(groups@[p as int].1) =~= before.push(item));
                assert(groups_view(groups@) =~= assoc_put(g, env@, before.push(item)));
            },
            None => {
                let mut items: Vec<(String, String)> = Vec::new();
                items.push((name, instance_id));
                assert(pairs_view(items) =~= Seq::<(Seq<char>, Seq<char>)>::empty().push(item));
                groups.push((env, items));
                assert(groups_view(groups@) =~= g.push((env@, pairs_view(items))));
            },
        }
        i = i + 1;
    }
    assert(records@.subrange(0, i as int) =~= records@);
    Ok(groups)
}

/// Each pair's name comes no later than the next one's.
pub open spec fn sorted_by_name(s: Seq<(Seq<char>, Seq<char>)>) -> bool {
    forall|i: int, j: int| 0 <= i < j < s.len() ==> seq_le(s[i].0, s[j].0)
}

/// The position of the first pair whose name comes after `name`, or the
/// length where there is none.
pub open spec fn first_after(s: Seq<(Seq<char>, Seq<char>)>, name: Seq<char>) -> int
    decreases s.len(),
{
    if s.len() == 0 || !seq_le(s[0].0, name) {
        0
    } else {
        1 + first_after(s.drop_first(), name)
    }
}

/// The pairs of `s` sorted by name one at a time, each placed after the
/// pairs already placed whose names do not come after its own: the order of
/// pairs with equal names is kept.
pub open spec fn insertion_sorted(s: Seq<(Seq<char>, Seq<char>)>) -> Seq<(Seq<char>, Seq<char>)>
    decreases s.len(),
{
    if s.len() == 0 {
        s
    } else {
        let pre = insertion_sorted(s.drop_last());
        pre.insert(first_after(pre, s.last().0), s.last())
    }
}

proof fn lemma_first_after(s: Seq<(Seq<char>, Seq<char>)>, name: Seq<char>, j: int)
    requires
        0 <= j <= s.len(),
        forall|k: int| 0 <= k < j ==> seq_le(#[trigger] s[k].0, name),
        j == s.len() || !seq_le(s[j].0, name),
    ensures
        first_after(s, name) == j,
    decreases j,
{
    if j > 0 {
        let t = s.drop_first();
        assert forall|k: int| 0 <= k < j - 1 implies seq_le(#[trigger] t[k].0, name) by {
            assert(t[k] == s[k + 1]);
        }
        if j < s.len() {
            assert(t[j - 1] == s[j]);
        }
        lemma_first_after(t, name, j - 1);
        assert(seq_le(s[0].0, name));
    }
}

/// The pairs of `v` ordered by name.
pub fn sort_by_name(v: &Vec<(String, String)>) -> (r: Vec<(String, String)>)
    ensures
        pairs_view(r) == insertion_sorted(pairs_view(*v)),
        sorted_by_name(pairs_view(r)),
        pairs_view(r).to_multiset() == pairs_view(*v).to_multiset(),
{
    let mut out: Vec<(String, String)> = Vec::new();
    let mut i: usize = 0;
    while i < v.len()
        invariant
            i <= v@.len(),
            sorted_by_name(pairs_view(out)),
            pairs_view(out) == insertion_sorted(pairs_view(*v).subrange(0, i as int)),
            pairs_view(out).to_multiset() == pairs_view(*v).subrange(0, i as int).to_multiset(),
        decreases v@.len() - i,
    {
        let name = v[i].0.as_str();
        let mut j: usize = 0;
        while j < out.len() && str_le(out[j].0.as_str(), name)
            invariant
                j <= out@.len(),
                forall|k: int| 0 <= k < j ==> seq_le(#[trigger] pairs_view(out)[k].0, name@),
            decreases out@.len() - j,
        {
            j = j + 1;
        }
        let ghost before = pairs_view(out);
        proof {
            lemma_first_after(before, name@, j as int);
            assert(pairs_view(*v).subrange(0, i + 1).drop_last() =~= pairs_view(*v).subrange(
                0,
                i as int,
            ));
        }
        let item = (v[i].0.clone(), v[i].1.clone());
        out.insert(j, item);
        assert(pairs_view(out) =~= before.insert(j as int, (item.0@, item.1@)));
        proof {
            let after = pairs_view(out);
            if j < before.len() {
                lemma_seq_le_total(before[j as int].0, name@);
            }
            assert forall|b: int| j <= b < before.len() implies seq_le(name@, #[trigger] before[b].0) by {
                if b > j {
                    lemma_seq_le_trans(name@, before[j as int].0, before[b].0);
                }
            }
            assert forall|a: int, b: int| 0 <= a < b < after.len() implies seq_le(
                after[a].0,
                after[b].0,
            ) by {
                if b > j {
                    assert(after[b] == before[b - 1]);
                    if a < j {
                        lemma_seq_le_trans(after[a].0, name@, after[b].0);
                    } else if a > j {
                        assert(after[a] == before[a - 1]);
                    }
                }
            }
            assert(pairs_view(*v).subrange(0, i + 1) =~= pairs_view(*v).subrange(0, i as int).push(
                (item.0@, item.1@),
            ));
        }
        i = i + 1;
    }
    assert(pairs_view(*v).subrange(0, i as int) =~= pairs_view(*v));
    out
}

/// The groups in lexicographic order of environment, the machines of each in
/// lexicographic order of name; an error where there are none.
pub fn ordered_groups(groups: &Groups) -> (r: Result<Groups, InventoryError>)
    requires
        unique_keys(groups_view(groups@)),
    ensures
        match r {
            Ok(v) => {
                &&& groups@.len() > 0
                &&& sorted_spec(keys_of(groups_view(v@)))
                &&& keys_of(groups_view(v@)).to_multiset() == keys_of(
                    groups_view(groups@),
                ).to_multiset()
                &&& forall|i: int|
                    0 <= i < v@.len() ==> {
                        &&& sorted_by_name(#[trigger] groups_view(v@)[i].1)
                        &&& groups_view(v@)[i].1 == insertion_sorted(
                            assoc_get(groups_view(groups@), groups_view(v@)[i].0),
                        )
                    }
            },
            Err(e) => groups@.len() == 0 && e is NoRunningInstances,
        },
{
    if groups.len() == 0 {
        return Err(InventoryError::NoRunningInstances);
    }
    let ghost g = groups_view(groups@);
    let mut envs: Vec<String> = Vec::new();
    let mut i: usize = 0;
    while i < groups.len()
        invariant
            i <= groups@.len(),
            g == groups_view(groups@),
            envs@.map_values(|s: String| s@) =~= keys_of(g.subrange(0, i as int)),
        decreases groups@.len() - i,
    {
        let ghost prev = envs@.map_values(|s: String| s@);
        envs.push(groups[i].0.clone());
        assert(envs@.map_values(|s: String| s@) =~= prev.push(g[i as int].0));
        i = i + 1;
        assert(keys_of(g.subrange(0, i as int)) =~= keys_of(g.subrange(0, i - 1)).push(
            g[i - 1].0,
        ));
    }
    assert(g.subrange(0, i as int) =~= g);
    let envs = sorted_strings(envs);
    let ghost sorted_keys = envs@.map_values(|s: String| s@);
    let mut out: Groups = Vec::new();
    let mut k: usize = 0;
    while k < envs.len()
        invariant
            k <= envs@.len(),
            g == groups_view(groups@),
            unique_keys(g),
            sorted_keys == envs@.map_values(|s: String| s@),
            sorted_keys.to_multiset() == keys_of(g).to_multiset(),
            keys_of(groups_view(out@)) =~= sorted_keys.subrange(0, k as int),
            forall|a: int|
                0 <= a < out@.len() ==> {
                    &&& sorted_by_name(#[trigger] groups_view(out@)[a].1)
                    &&& groups_view(out@)[a].1 == insertion_sorted(
                        assoc_get(g, groups_view(out@)[a].0),
                    )
                },
        decreases envs@.len() - k,
    {
        let env = envs[k].as_str();
        assert(sorted_keys[k as int] == env@);
        assert(sorted_keys.contains(env@));
        assert(sorted_keys.to_multiset().count(env@) > 0);
        assert(keys_of(g).to_multiset().count(env@) > 0);
        assert(keys_of(g).contains(env@));
        let p = match find_key(groups, env) {
            Some(p) => p,
            None => {
                proof {
                    let q = choose|q: int| 0 <= q < keys_of(g).len() && keys_of(g)[q] == env@;
                    assert(g[q].0 == env@);
                }
                return Err(InventoryError::NoRunningInstances);
            },
        };
        proof {
            lemma_key_pos(g, p as int);
        }
        let items = sort_by_name(&groups[p].1);
        let ghost prev = groups_view(out@);
        out.push((envs[k].clone(), items));
        assert(groups_view(out@) =~= prev.push((env@, pairs_view(items))));
        assert(keys_of(groups_view(out@)) =~= keys_of(prev).push(env@));
        k = k + 1;
        assert(sorted_keys.subrange(0, k as int) =~= sorted_keys.subrange(0, k - 1).push(env@));
    }
    assert(sorted_keys.subrange(0, k as int) =~= sorted_keys);
    Ok(out)
}

} // verus!
