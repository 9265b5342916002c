//! The digest formatter: render every stored per-category snapshot under
//! each main type as a plain-text Markdown report. An empty category still
//! gets its header, it is not omitted.
use vstd::prelude::*;

use crate::models::DataStore;
use crate::models::DataStoreV;
use crate::numbers::milli_to_string;
use crate::numbers::spec_milli_chars;
use crate::pipeline::get_current_data_list;
use crate::pipeline::spec_current_records;
use crate::redis::spec_keys_names;
use crate::redis::RedisInstance;

verus! {

/// One table row of a stored record: its name, primary value and the two
/// trends.
pub open spec fn spec_row(d: DataStoreV) -> Seq<char> {
    "| "@ + d.name + " | "@ + spec_milli_chars(d.chaos_equivalent) + " | "@ + spec_milli_chars(
        d.pay_total_change,
    ) + " | "@ + spec_milli_chars(d.receive_total_change) + " |\n"@
}

/// The rows of a snapshot, in stored order.
pub open spec fn spec_rows(recs: Seq<DataStoreV>) -> Seq<char>
    decreases recs.len(),
{
    if recs.len() == 0 {
        Seq::empty()
    } else {
        spec_rows(recs.drop_last()) + spec_row(recs.last())
    }
}

/// One category's table: its header and the rows of its snapshot.
pub open spec fn spec_category_table(st: RedisInstance, cat: Seq<char>) -> Seq<char> {
    "## "@ + cat + "\n"@ + "| name | Chaos Equivalent | Pay Total Change | Receive Total Change |\n"@
        + "| --- | --- | --- | --- |\n"@ + spec_rows(spec_current_records(st, cat))
}

/// The concatenated tables of the given categories.
pub open spec fn spec_tables(st: RedisInstance, cats: Seq<Seq<char>>) -> Seq<char>
    decreases cats.len(),
{
    if cats.len() == 0 {
        Seq::empty()
    } else {
        spec_tables(st, cats.drop_last()) + spec_category_table(st, cats.last())
    }
}

/// The whole digest: a section per main type, holding one table per
/// category discovered under that type's key namespace.
pub open spec fn spec_digest(st: RedisInstance) -> Seq<char> {
    "# Currency\n"@ + spec_tables(st, spec_keys_names(st.keys(), "Currency:*"@)) + "# Item\n"@
        + spec_tables(st, spec_keys_names(st.keys(), "Item:*"@))
}

/// The categories currently present under a key pattern.
pub fn get_all_category(key: &str, redis: &mut RedisInstance) -> (r: Vec<String>)
    requires
        old(redis).wf(),
    ensures
        *final(redis) == *old(redis),
        r.deep_view() == spec_keys_names(old(redis).keys(), key@),
{
    let category_list = redis.get_all_keys_name(key);
    match category_list {
        Ok(category_list) => category_list,
        Err(_) => {
            let empty: Vec<String> = Vec::new();
            empty
        },
    }
}

/// Append one category's table to the report.
#[verifier::rlimit(80)]
pub fn build_output_str(output: &mut String, category: &str, redis: &mut RedisInstance)
    requires
        old(redis).wf(),
    ensures
        *final(redis) == *old(redis),
        final(output)@ == old(output)@ + spec_category_table(*old(redis), category@),
{
    let data_list = get_current_data_list(category, redis);
    let ghost recs = spec_current_records(*old(redis), category@);
    output.append("## ");
    output.append(category);
    output.append("\n");
    output.append("| name | Chaos Equivalent | Pay Total Change | Receive Total Change |\n");
    output.append("| --- | --- | --- | --- |\n");
    let ghost header_done = output@;
    proof {
        assert(header_done =~= old(output)@ + ("## "@ + category@ + "\n"@
            + "| name | Chaos Equivalent | Pay Total Change | Receive Total Change |\n"@
            + "| --- | --- | --- | --- |\n"@));
    }
    let n = data_list.len();
    let mut i: usize = 0;
    while i < n
        invariant
            i <= n,
            n == data_list@.len(),
            data_list@.map_values(|d: DataStore| d@) == recs,
            output@ =~= header_done + spec_rows(recs.subrange(0, i as int)),
        decreases n - i,
    {
        let ghost pre = recs.subrange(0, i as int);
        let ghost cur = recs.subrange(0, i + 1 as int);
        proof {
            assert(cur.drop_last() =~= pre);
            assert(cur.last() == data_list@[i as int]@);
        }
        let data = &data_list[i];
        output.append("| ");
        output.append(data.name.as_str());
        output.append(" | ");
        let chaos_str = milli_to_string(data.chaos_equivalent);
        output.append(chaos_str.as_str());
        output.append(" | ");
        let pay_str = milli_to_string(data.pay_total_change);
        output.append(pay_str.as_str());
        output.append(" | ");
        let recv_str = milli_to_string(data.receive_total_change);
        output.append(recv_str.as_str());
        output.append(" |\n");
        proof {
            assert(output@ =~= header_done + spec_rows(pre) + spec_row(data_list@[i as int]@));
            assert(spec_rows(cur) =~= spec_rows(pre) + spec_row(cur.last()));
            assert(output@ =~= header_done + spec_rows(cur));
        }
        i += 1;
    }
    proof {
        assert(recs.subrange(0, n as int) =~= recs);
        assert(final(output)@ =~= old(output)@ + spec_category_table(*old(redis), category@));
    }
}

/// Render the whole digest of the store's current snapshots.
pub fn get_format_output(redis: &mut RedisInstance) -> (r: String)
    requires
        old(redis).wf(),
    ensures
        *final(redis) == *old(redis),
        r@ == spec_digest(*old(redis)),
{
    let currency_list = get_all_category("Currency:*", redis);
    let item_list = get_all_category("Item:*", redis);
    let ghost ccats = spec_keys_names(old(redis).keys(), "Currency:*"@);
    let ghost icats = spec_keys_names(old(redis).keys(), "Item:*"@);
    let mut output = String::new();
    output.append("# Currency\n");
    let ghost cur_start = output@;
    proof {
        assert(cur_start =~= "# Currency\n"@);
    }
    let n = currency_list.len();
    let mut i: usize = 0;
    while i < n
        invariant
            i <= n,
            n == currency_list@.len(),
            redis.wf(),
            *redis == *old(redis),
            currency_list.deep_view() == ccats,
            output@ =~= cur_start + spec_tables(*old(redis), ccats.subrange(0, i as int)),
        decreases n - i,
    {
        let ghost pre = ccats.subrange(0, i as int);
        let ghost cur = ccats.subrange(0, i + 1 as int);
        proof {
            assert(cur.drop_last() =~= pre);
            assert(cur.last() == currency_list@[i as int]@);
        }
        build_output_str(&mut output, currency_list[i].as_str(), redis);
        proof {
            assert(spec_tables(*old(redis), cur) =~= spec_tables(*old(redis), pre)
                + spec_category_table(*old(redis), cur.last()));
            assert(output@ =~= cur_start + spec_tables(*old(redis), cur));
        }
        i += 1;
    }
    proof {
        assert(ccats.subrange(0, n as int) =~= ccats);
    }
    output.append("# Item\n");
    let ghost item_start = output@;
    proof {
        assert(item_start =~= cur_start + spec_tables(*old(redis), ccats) + "# Item\n"@);
    }
    let m = item_list.len();
    let mut j: usize = 0;
    while j < m
        invariant
            j <= m,
            m == item_list@.len(),
            redis.wf(),
            *redis == *old(redis),
            item_list.deep_view() == icats,
            output@ =~= item_start + spec_tables(*old(redis), icats.subrange(0, j as int)),
        decreases m - j,
    {
        let ghost pre = icats.subrange(0, j as int);
        let ghost cur = icats.subrange(0, j + 1 as int);
        proof {
            assert(cur.drop_last() =~= pre);
            assert(cur.last() == item_list@[j as int]@);
        }
        build_output_str(&mut output, item_list[j].as_str(), redis);
        proof {
            assert(spec_tables(*old(redis), cur) =~= spec_tables(*old(redis), pre)
                + spec_category_table(*old(redis), cur.last()));
            assert(output@ =~= item_start + spec_tables(*old(redis), cur));
        }
        j += 1;
    }
    proof {
        assert(icats.subrange(0, m as int) =~= icats);
        assert(output@ =~= spec_digest(*old(redis)));
    }
    output
}

} // verus!
