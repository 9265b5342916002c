//! Discovery of the categories a scheduled tick should refresh: a scan of
//! the store's dataset namespaces `<mainType>:<category>`, grouped by main
//! type. Allow-list keys (three segments) and the skip-list key (category
//! slot `skip`) are not datasets and are left out.
use vstd::prelude::*;

use crate::redis::spec_matching_keys;
use crate::redis::RedisInstance;
use crate::strutil::spec_split;
use crate::strutil::str_eq;
use crate::strutil::str_split;

verus! {

/// The category names among the given keys: of every key with exactly two
/// colon-separated segments whose second segment is not the skip-list
/// marker, that second segment.
pub open spec fn spec_dataset_names(ks: Seq<Seq<char>>) -> Seq<Seq<char>>
    decreases ks.len(),
{
    if ks.len() == 0 {
        Seq::empty()
    } else {
        let pre = spec_dataset_names(ks.drop_last());
        let segs = spec_split(ks.last(), ':');
        if segs.len() == 2 && segs[1] != "skip"@ {
            pre.push(segs[1])
        } else {
            pre
        }
    }
}

/// The categories tracked under one main type: the dataset keys of its
/// namespace, read back as category names.
pub open spec fn spec_tracked_categories(keys: Seq<Seq<char>>, mt: Seq<char>) -> Seq<Seq<char>> {
    spec_dataset_names(spec_matching_keys(keys, mt + ":*"@))
}

/// The refresh map: for each main type, the categories whose snapshots the
/// store currently tracks.
pub open spec fn spec_refresh_map(st: RedisInstance) -> Seq<(Seq<char>, Seq<Seq<char>>)> {
    seq![
        ("Currency"@, spec_tracked_categories(st.keys(), "Currency"@)),
        ("Item"@, spec_tracked_categories(st.keys(), "Item"@)),
    ]
}

/// The mathematical image of a grouped name map.
pub open spec fn spec_pairs_view(s: Seq<(String, Vec<String>)>) -> Seq<(Seq<char>, Seq<Seq<char>>)> {
    s.map_values(|p: (String, Vec<String>)| (p.0@, p.1.deep_view()))
}

/// The categories currently tracked under one main type.
pub fn tracked_categories(redis: &mut RedisInstance, main_type: &str) -> (r: Vec<String>)
    requires
        old(redis).wf(),
    ensures
        *final(redis) == *old(redis),
        r.deep_view() == spec_tracked_categories(old(redis).keys(), main_type@),
{
    let mut pattern = String::from_str(main_type);
    pattern.append(":*");
    proof {
        assert(pattern@ =~= main_type@ + ":*"@);
    }
    let keys = match redis.get_all_keys(pattern.as_str()) {
        Ok(ks) => ks,
        Err(_) => Vec::new(),
    };
    let ghost kd = keys.deep_view();
    let n = keys.len();
    let mut names: Vec<String> = Vec::new();
    let mut i: usize = 0;
    while i < n
        invariant
            i <= n,
            n == keys@.len(),
            kd == keys.deep_view(),
            names.deep_view() =~= spec_dataset_names(kd.subrange(0, i as int)),
        decreases n - i,
    {
        let ghost pre = kd.subrange(0, i as int);
        let ghost cur = kd.subrange(0, i + 1 as int);
        proof {
            assert(cur.drop_last() =~= pre);
            assert(cur.last() == keys@[i as int]@);
        }
        let segs = str_split(keys[i].as_str(), ':');
        if segs.len() == 2 && !str_eq(segs[1].as_str(), "skip") {
            let ghost before = names.deep_view();
            names.push(segs[1].clone());
            proof {
                assert(segs.deep_view()[1] == segs@[1]@);
                assert(names.deep_view() =~= before.push(
                    spec_split(keys@[i as int]@, ':')[1],
                ));
            }
        } else {
            proof {
                assert(segs.deep_view().len() == segs@.len());
                if segs@.len() == 2 {
                    assert(segs.deep_view()[1] == segs@[1]@);
                }
            }
        }
        i += 1;
    }
    proof {
        assert(kd.subrange(0, n as int) =~= kd);
    }
    names
}

/// Discover, grouped by main type, every category whose snapshot the
/// store currently tracks.
pub fn get_the_refresh_key_map(redis: &mut RedisInstance) -> (r: Vec<(String, Vec<String>)>)
    requires
        old(redis).wf(),
    ensures
        *final(redis) == *old(redis),
        spec_pairs_view(r@) == spec_refresh_map(*old(redis)),
{
    let currency_list = tracked_categories(redis, "Currency");
    let item_list = tracked_categories(redis, "Item");
    let mut refresh_key_map: Vec<(String, Vec<String>)> = Vec::new();
    refresh_key_map.push((String::from_str("Currency"), currency_list));
    refresh_key_map.push((String::from_str("Item"), item_list));
    proof {
        assert(spec_pairs_view(refresh_key_map@) =~= spec_refresh_map(*old(redis)));
    }
    refresh_key_map
}

} // verus!
