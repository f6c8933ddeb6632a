use vstd::prelude::*;
use vstd::multiset::Multiset;
use crate::collect::{link_views, CandidateLink, LinkModel};
use crate::names::name_views;

verus! {

/// How many entries of `s` equal `k`.
pub open spec fn count_of(s: Seq<Seq<char>>, k: Seq<char>) -> nat
    decreases s.len(),
{
    if s.len() == 0 {
        0
    } else {
        count_of(s.drop_last(), k) + if s.last() == k {
            1nat
        } else {
            0nat
        }
    }
}

proof fn lemma_count_le_len(s: Seq<Seq<char>>, k: Seq<char>)
    ensures
        count_of(s, k) <= s.len(),
    decreases s.len(),
{
    if s.len() > 0 {
        lemma_count_le_len(s.drop_last(), k);
    }
}

/// The hosts of the given links, one per link that has a host;
/// host-less links contribute nothing.
pub open spec fn hosts_of(s: Seq<LinkModel>) -> Seq<Seq<char>>
    decreases s.len(),
{
    if s.len() == 0 {
        Seq::empty()
    } else {
        hosts_of(s.drop_last()) + if s.last().url.host.len() > 0 {
            seq![s.last().url.host]
        } else {
            Seq::empty()
        }
    }
}

/// The classified extensions of the given links, links without one
/// skipped.
pub open spec fn exts_of(s: Seq<LinkModel>) -> Seq<Seq<char>>
    decreases s.len(),
{
    if s.len() == 0 {
        Seq::empty()
    } else {
        exts_of(s.drop_last()) + match s.last().extension {
            Some(e) => seq![e],
            None => Seq::empty(),
        }
    }
}

/// `k` has an entry in the tally `r`.
pub open spec fn tallied(r: Seq<(String, usize)>, k: Seq<char>) -> bool {
    exists|i: int| 0 <= i < r.len() && (#[trigger] r[i]).0@ == k
}

/// Tally the given keys: one entry per distinct key, carrying how often
/// it occurs; every key occurs in the tally.
pub fn tally_counts(keys: Vec<String>) -> (r: Vec<(String, usize)>)
    ensures
        forall|i: int, j: int|
            0 <= i < j < r@.len() ==> (#[trigger] r@[i]).0@ != (#[trigger] r@[j]).0@,
        forall|i: int|
            0 <= i < r@.len() ==> (#[trigger] r@[i]).1 as nat == count_of(
                name_views(keys@),
                r@[i].0@,
            ),
        forall|k: int| 0 <= k < keys@.len() ==> tallied(r@, #[trigger] name_views(keys@)[k]),
{
    let ghost kv = name_views(keys@);
    let mut r: Vec<(String, usize)> = Vec::new();
    let mut t: usize = 0;
    while t < keys.len()
        invariant
            t <= keys@.len(),
            kv == name_views(keys@),
            forall|i: int, j: int|
                0 <= i < j < r@.len() ==> (#[trigger] r@[i]).0@ != (#[trigger] r@[j]).0@,
            forall|i: int|
                0 <= i < r@.len() ==> (#[trigger] r@[i]).1 as nat == count_of(
                    kv.take(t as int),
                    r@[i].0@,
                ),
            forall|k: int| 0 <= k < t ==> tallied(r@, #[trigger] kv[k]),
        decreases keys@.len() - t,
    {
        proof {
            assert(kv.take(t + 1).drop_last() =~= kv.take(t as int));
            assert(kv.take(t + 1).last() == kv[t as int]);
            assert(kv[t as int] == keys@[t as int]@);
        }
        let ghost pre = r@;
        let mut j: usize = 0;
        let mut found: bool = false;
        while j < r.len() && !found
            invariant
                j <= r@.len(),
                r@ == pre,
                t < keys@.len(),
                !found ==> forall|i: int| 0 <= i < j ==> (#[trigger] pre[i]).0@ != keys@[t as int]@,
                found ==> j < pre.len() && pre[j as int].0@ == keys@[t as int]@,
            decreases r@.len() - j + (if found {
                0int
            } else {
                1int
            }),
        {
            if r[j].0.eq(&keys[t]) {
                found = true;
            } else {
                j = j + 1;
            }
        }
        if found {
            let c: usize = r[j].1;
            proof {
                lemma_count_le_len(kv.take(t as int), pre[j as int].0@);
            }
            let k2 = r[j].0.clone();
            r.set(j, (k2, c + 1));
        } else {
            let k2 = keys[t].clone();
            r.push((k2, 1));
        }
        proof {
            assert forall|i: int| 0 <= i < r@.len() implies (#[trigger] r@[i]).1 as nat == count_of(
                kv.take(t + 1),
                r@[i].0@,
            ) by {
                if found {
                    if i == j as int {
                        assert(r@[i].0@ == pre[j as int].0@);
                        assert(kv.take(t + 1).last() == r@[i].0@);
                    } else {
                        assert(r@[i] == pre[i]);
                        assert(r@[i].0@ != keys@[t as int]@);
                    }
                } else {
                    if i == r@.len() - 1 {
                        assert(r@[i].1 == 1);
                        assert(count_of(kv.take(t as int), r@[i].0@) == 0) by {
                            if count_of(kv.take(t as int), r@[i].0@) != 0 {
                                lemma_count_pos_exists(kv.take(t as int), r@[i].0@);
                            }
                        }
                    } else {
                        assert(r@[i] == pre[i]);
                        assert(r@[i].0@ != keys@[t as int]@);
                    }
                }
            }
            assert forall|k: int| 0 <= k < t + 1 implies tallied(r@, #[trigger] kv[k]) by {
                if k < t {
                    assert(tallied(pre, kv[k]));
                    let i = choose|i: int| 0 <= i < pre.len() && (#[trigger] pre[i]).0@ == kv[k];
                    if found && i == j as int {
                        assert(r@[i].0@ == pre[i].0@);
                    } else {
                        assert(r@[i] == pre[i]);
                    }
                    assert(r@[i].0@ == kv[k]);
                } else {
                    if found {
                        assert(r@[j as int].0@ == kv[k]);
                    } else {
                        assert(r@[r@.len() - 1].0@ == kv[k]);
                    }
                }
            }
        }
        t = t + 1;
    }
    proof {
        assert(kv.take(keys@.len() as int) =~= kv);
    }
    r
}

/// A key counted at least once occurs in the sequence.
proof fn lemma_count_pos_exists(s: Seq<Seq<char>>, k: Seq<char>)
    requires
        count_of(s, k) > 0,
    ensures
        exists|i: int| 0 <= i < s.len() && s[i] == k,
    decreases s.len(),
{
    if s.last() == k {
        assert(s[s.len() - 1] == k);
    } else {
        lemma_count_pos_exists(s.drop_last(), k);
        let i = choose|i: int| 0 <= i < s.drop_last().len() && s.drop_last()[i] == k;
        assert(s[i] == k);
    }
}

/// The hosts of the links that have one, as strings.
fn host_keys(links: &Vec<CandidateLink>) -> (r: Vec<String>)
    ensures
        name_views(r@) == hosts_of(link_views(links@)),
{
    let ghost all = link_views(links@);
    let mut r: Vec<String> = Vec::new();
    let mut i: usize = 0;
    while i < links.len()
        invariant
            i <= links@.len(),
            all == link_views(links@),
            name_views(r@) == hosts_of(all.take(i as int)),
        decreases links@.len() - i,
    {
        proof {
            assert(all.take(i + 1).drop_last() =~= all.take(i as int));
            assert(all.take(i + 1).last() == links@[i as int]@);
        }
        if !links[i].url.host.as_str().is_empty() {
            r.push(links[i].url.host.clone());
        }
        proof {
            assert(name_views(r@) =~= hosts_of(all.take(i + 1)));
        }
        i = i + 1;
    }
    proof {
        assert(all.take(links@.len() as int) =~= all);
    }
    r
}

/// The classified extensions of the given links, as strings.
fn ext_keys(links: &Vec<CandidateLink>) -> (r: Vec<String>)
    ensures
        name_views(r@) == exts_of(link_views(links@)),
{
    let ghost all = link_views(links@);
    let mut r: Vec<String> = Vec::new();
    let mut i: usize = 0;
    while i < links.len()
        invariant
            i <= links@.len(),
            all == link_views(links@),
            name_views(r@) == exts_of(all.take(i as int)),
        decreases links@.len() - i,
    {
        proof {
            assert(all.take(i + 1).drop_last() =~= all.take(i as int));
            assert(all.take(i + 1).last() == links@[i as int]@);
        }
        match &links[i].extension {
            Some(e) => {
                r.push(e.clone());
            },
            None => {},
        }
        proof {
            assert(name_views(r@) =~= exts_of(all.take(i + 1)));
        }
        i = i + 1;
    }
    proof {
        assert(all.take(links@.len() as int) =~= all);
    }
    r
}

/// One tally entry per distinct host among the links, with how many
/// links carry it.
pub fn host_distribution(links: &Vec<CandidateLink>) -> (r: Vec<(String, usize)>)
    ensures
        forall|i: int, j: int|
            0 <= i < j < r@.len() ==> (#[trigger] r@[i]).0@ != (#[trigger] r@[j]).0@,
        forall|i: int|
            0 <= i < r@.len() ==> (#[trigger] r@[i]).1 as nat == count_of(
                hosts_of(link_views(links@)),
                r@[i].0@,
            ),
        forall|k: int|
            0 <= k < hosts_of(link_views(links@)).len() ==> tallied(
                r@,
                #[trigger] hosts_of(link_views(links@))[k],
            ),
{
    let keys = host_keys(links);
    let r = tally_counts(keys);
    proof {
        assert forall|k: int| 0 <= k < hosts_of(link_views(links@)).len() implies tallied(
            r@,
            #[trigger] hosts_of(link_views(links@))[k],
        ) by {
            assert(name_views(keys@).len() == keys@.len());
            assert(name_views(keys@)[k] == hosts_of(link_views(links@))[k]);
            assert(tallied(r@, name_views(keys@)[k]));
        }
    }
    r
}

/// One tally entry per distinct classified extension among the links,
/// with how many links carry it.
pub fn extension_distribution(links: &Vec<CandidateLink>) -> (r: Vec<(String, usize)>)
    ensures
        forall|i: int, j: int|
            0 <= i < j < r@.len() ==> (#[trigger] r@[i]).0@ != (#[trigger] r@[j]).0@,
        forall|i: int|
            0 <= i < r@.len() ==> (#[trigger] r@[i]).1 as nat == count_of(
                exts_of(link_views(links@)),
                r@[i].0@,
            ),
        forall|k: int|
            0 <= k < exts_of(link_views(links@)).len() ==> tallied(
                r@,
                #[trigger] exts_of(link_views(links@))[k],
            ),
{
    let keys = ext_keys(links);
    let r = tally_counts(keys);
    proof {
        assert forall|k: int| 0 <= k < exts_of(link_views(links@)).len() implies tallied(
            r@,
            #[trigger] exts_of(link_views(links@))[k],
        ) by {
            assert(name_views(keys@).len() == keys@.len());
            assert(name_views(keys@)[k] == exts_of(link_views(links@))[k]);
            assert(tallied(r@, name_views(keys@)[k]));
        }
    }
    r
}

/// View of a tally entry.
pub open spec fn pair_view(p: (String, usize)) -> (Seq<char>, int) {
    (p.0@, p.1 as int)
}

/// Sort tally entries by their count, largest first; the entries are
/// rearranged, none added, dropped or changed.
pub fn sort_counts_desc(v: Vec<(String, usize)>) -> (r: Vec<(String, usize)>)
    ensures
        r@.len() == v@.len(),
        forall|i: int, j: int| 0 <= i < j < r@.len() ==> (#[trigger] r@[i]).1 >= (#[trigger] r@[j]).1,
        r@.map_values(|p: (String, usize)| pair_view(p)).to_multiset() == v@.map_values(
            |p: (String, usize)| pair_view(p),
        ).to_multiset(),
{
    broadcast use vstd::seq_lib::group_to_multiset_ensures;

    let ghost orig = v@.map_values(|p: (String, usize)| pair_view(p));
    let mut rem = v;
    let mut out: Vec<(String, usize)> = Vec::new();
    while rem.len() > 0
        invariant
            out@.len() + rem@.len() == orig.len(),
            out@.map_values(|p: (String, usize)| pair_view(p)).to_multiset().add(
                rem@.map_values(|p: (String, usize)| pair_view(p)).to_multiset(),
            ) == orig.to_multiset(),
            forall|i: int, j: int|
                0 <= i < j < out@.len() ==> (#[trigger] out@[i]).1 >= (#[trigger] out@[j]).1,
            forall|i: int, j: int|
                0 <= i < out@.len() && 0 <= j < rem@.len() ==> (#[trigger] out@[i]).1
                    >= (#[trigger] rem@[j]).1,
        decreases rem@.len(),
    {
        let mut best: usize = 0;
        let mut j: usize = 1;
        while j < rem.len()
            invariant
                best < j <= rem@.len(),
                rem@.len() > 0,
                forall|i: int| 0 <= i < j ==> (#[trigger] rem@[i]).1 <= rem@[best as int].1,
            decreases rem@.len() - j,
        {
            if rem[j].1 > rem[best].1 {
                best = j;
            }
            j = j + 1;
        }
        let ghost pre_rem = rem@.map_values(|p: (String, usize)| pair_view(p));
        let ghost pre_out = out@.map_values(|p: (String, usize)| pair_view(p));
        let x = rem.remove(best);
        out.push(x);
        proof {
            broadcast use vstd::seq_lib::group_to_multiset_ensures;

            let post_rem = rem@.map_values(|p: (String, usize)| pair_view(p));
            let post_out = out@.map_values(|p: (String, usize)| pair_view(p));
            let e = pair_view(out@.last());
            assert(post_rem =~= pre_rem.remove(best as int));
            assert(post_out =~= pre_out.push(e));
            assert(pre_rem[best as int] == e);
            assert(pre_rem.contains(e));
            assert(post_rem.to_multiset() == pre_rem.remove(best as int).to_multiset());
            assert(pre_rem.remove(best as int).to_multiset() =~= pre_rem.to_multiset().remove(e));
            assert(post_out.to_multiset() == pre_out.push(e).to_multiset());
            assert(pre_out.push(e).to_multiset() =~= pre_out.to_multiset().insert(e));
            assert(pre_rem.to_multiset().count(e) > 0);
            assert(post_out.to_multiset().add(post_rem.to_multiset()) =~= pre_out.to_multiset()
                .add(pre_rem.to_multiset()));
        }
    }
    proof {
        assert(rem@.map_values(|p: (String, usize)| pair_view(p)).to_multiset() =~= Multiset::<
            (Seq<char>, int),
        >::empty());
        assert(out@.map_values(|p: (String, usize)| pair_view(p)).to_multiset() =~= orig
            .to_multiset());
    }
    out
}

/// The display name of a channel-type code.
pub open spec fn channel_type_name(channel_type: u32) -> Seq<char> {
    match channel_type {
        0u32 => "GuildTextChat"@,
        1u32 => "DirectTextChat"@,
        2u32 => "GuildVoiceChat"@,
        3u32 => "DirectGroupTextChat"@,
        4u32 => "GuildCategory"@,
        5u32 => "GuildNews"@,
        10u32 => "GuildNewsThread"@,
        11u32 => "GuildPublicThread"@,
        12u32 => "GuildPrivateThread"@,
        13u32 => "GuildStageVoice"@,
        14u32 => "GuildDirectory"@,
        15u32 => "GuildForum"@,
        _ => "Unknown"@,
    }
}

/// The display name of a channel-type code; codes outside the table are
/// `Unknown`.
pub fn get_channel_type(channel_type: u32) -> (r: String)
    ensures
        r@ == channel_type_name(channel_type),
{
    match channel_type {
        0 => String::from_str("GuildTextChat"),
        1 => String::from_str("DirectTextChat"),
        2 => String::from_str("GuildVoiceChat"),
        3 => String::from_str("DirectGroupTextChat"),
        4 => String::from_str("GuildCategory"),
        5 => String::from_str("GuildNews"),
        10 => String::from_str("GuildNewsThread"),
        11 => String::from_str("GuildPublicThread"),
        12 => String::from_str("GuildPrivateThread"),
        13 => String::from_str("GuildStageVoice"),
        14 => String::from_str("GuildDirectory"),
        15 => String::from_str("GuildForum"),
        _ => String::from_str("Unknown"),
    }
}

} // verus!
