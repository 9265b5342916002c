//! The store key scheme. Keeping it in one place prevents key-scheme
//! drift between the components, and the distinctness lemma shows the
//! namespaces cannot collide.
use vstd::prelude::*;

verus! {

/// `<mainType>:<category>:filter` — the allow-list of one category.
pub open spec fn spec_filter_key(main: Seq<char>, cat: Seq<char>) -> Seq<char> {
    main + ":"@ + cat + ":filter"@
}

/// `<mainType>:skip` — the exemption list of one main type.
pub open spec fn spec_skip_key(main: Seq<char>) -> Seq<char> {
    main + ":skip"@
}

/// `<mainType>:<category>` — the stored snapshot of one category.
pub open spec fn spec_data_key(main: Seq<char>, cat: Seq<char>) -> Seq<char> {
    main + ":"@ + cat
}

/// `<scope>:D2C` — the exchange-ratio record of one scope.
pub open spec fn spec_ratio_key(league: Seq<char>) -> Seq<char> {
    league + ":D2C"@
}

pub fn filter_key(main: &str, cat: &str) -> (r: String)
    ensures
        r@ == spec_filter_key(main@, cat@),
{
    let mut s = String::from_str(main);
    s.append(":");
    s.append(cat);
    s.append(":filter");
    proof {
        assert(s@ =~= spec_filter_key(main@, cat@));
    }
    s
}

pub fn skip_key(main: &str) -> (r: String)
    ensures
        r@ == spec_skip_key(main@),
{
    let mut s = String::from_str(main);
    s.append(":skip");
    proof {
        assert(s@ =~= spec_skip_key(main@));
    }
    s
}

pub fn data_key(main: &str, cat: &str) -> (r: String)
    ensures
        r@ == spec_data_key(main@, cat@),
{
    let mut s = String::from_str(main);
    s.append(":");
    s.append(cat);
    proof {
        assert(s@ =~= spec_data_key(main@, cat@));
    }
    s
}

pub fn ratio_key(league: &str) -> (r: String)
    ensures
        r@ == spec_ratio_key(league@),
{
    let mut s = String::from_str(league);
    s.append(":D2C");
    proof {
        assert(s@ =~= spec_ratio_key(league@));
    }
    s
}

/// The filter key, the skip key and the data key of a category are
/// pairwise distinct, and neither the filter key nor the skip key can
/// collide with any scope's ratio key.
pub proof fn lemma_keys_distinct(main: Seq<char>, cat: Seq<char>, league: Seq<char>)
    ensures
        spec_filter_key(main, cat) != spec_ratio_key(league),
        spec_skip_key(main) != spec_ratio_key(league),
        spec_filter_key(main, cat) != spec_data_key(main, cat),
        spec_filter_key(main, cat) != spec_skip_key(main),
{
    reveal_strlit(":");
    reveal_strlit(":filter");
    reveal_strlit(":skip");
    reveal_strlit(":D2C");
    let fk = spec_filter_key(main, cat);
    let sk = spec_skip_key(main);
    let rk = spec_ratio_key(league);
    let dk = spec_data_key(main, cat);
    assert(fk.len() == main.len() + 1 + cat.len() + 7);
    assert(sk.len() == main.len() + 5);
    assert(rk.len() == league.len() + 4);
    assert(dk.len() == main.len() + 1 + cat.len());
    // the last character tells the filter and skip keys from the ratio key
    assert(fk[fk.len() - 1] == 'r');
    assert(sk[sk.len() - 1] == 'p');
    assert(rk[rk.len() - 1] == 'C');
    if fk == rk {
        assert(fk[fk.len() - 1] == rk[rk.len() - 1]);
    }
    if sk == rk {
        assert(sk[sk.len() - 1] == rk[rk.len() - 1]);
    }
    // the data key is shorter than the filter key and than no skip key
    assert(fk != dk);
    if fk == sk {
        assert(cat.len() + 8 == 5);
    }
}

} // verus!
