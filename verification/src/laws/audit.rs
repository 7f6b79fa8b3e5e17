//! What the audit of a group repository promises.
use crate::audit::{
    audit_lines, audit_result, cloak_lines, copy_line, differs, group_members, held_items,
    hidden_cache, in_order, kind_name, law_copies_are_in_order, member_items, numbered, repo_named,
    tag_verdict, total_hidden, type_and_digest, verdict, Cloak, CloakView, HolderView, MemberRepo,
    TagVerdictView,
};
use crate::ordered::key2;
use crate::reorg::evidence::short_digest;
use crate::seqs::{
    lemma_filter_contains, lemma_first_found, lemma_first_none, lemma_spread_contains, spread,
};
use crate::text::decimal;
use vstd::prelude::*;

verus! {

/// The hidden cache copies of two lists of cloaks are those of both together.
pub proof fn law_hidden_copies_add_up(a: Seq<CloakView>, b: Seq<CloakView>)
    ensures
        total_hidden(a + b) == total_hidden(a) + total_hidden(b),
        a.len() == 1 ==> total_hidden(a) == a[0].cache_hidden,
        total_hidden(Seq::empty()) == 0,
    decreases b.len(),
{
    if b.len() == 0 {
        assert(a + b =~= a);
        if a.len() == 1 {
            assert(a.drop_last() =~= Seq::<CloakView>::empty());
            assert(total_hidden(a.drop_last()) == 0);
        }
    } else {
        law_hidden_copies_add_up(a, b.drop_last());
        assert((a + b).drop_last() =~= a + b.drop_last());
        if a.len() == 1 {
            assert(a.drop_last() =~= Seq::<CloakView>::empty());
            assert(total_hidden(a.drop_last()) == 0);
        }
    }
}

/// Where any cloak of a list, wherever it stands, has a hidden cache copy, some are
/// hidden in all, no fewer than its own.
pub proof fn law_any_hidden_copy_counts(cloaks: Seq<CloakView>, i: int)
    requires
        0 <= i < cloaks.len(),
    ensures
        total_hidden(cloaks) >= cloaks[i].cache_hidden,
{
    let a = cloaks.take(i);
    let b = cloaks.skip(i + 1);
    let one = seq![cloaks[i]];
    law_hidden_copies_add_up(a, one);
    law_hidden_copies_add_up(a + one, b);
    law_hidden_copies_add_up(one, b);
    assert(cloaks =~= a + one + b);
}

/// Where no cloak has a hidden cache copy, none is hidden in all.
pub proof fn law_nothing_hidden_counts_nothing(cloaks: Seq<CloakView>)
    requires
        forall|i: int| 0 <= i < cloaks.len() ==> (#[trigger] cloaks[i]).cache_hidden == 0,
    ensures
        total_hidden(cloaks) == 0,
    decreases cloaks.len(),
{
    if cloaks.len() > 0 {
        let rest = cloaks.drop_last();
        assert forall|i: int| 0 <= i < rest.len() implies (#[trigger] rest[i]).cache_hidden == 0 by {
            assert(rest[i] == cloaks[i]);
        }
        law_nothing_hidden_counts_nothing(rest);
        assert(cloaks[cloaks.len() - 1].cache_hidden == 0);
    }
}

/// The audit fails exactly where some cloak has a hidden cache copy.
pub proof fn law_audit_fails_on_a_hidden_cache(cloaks: &[Cloak], r: Result<(), String>)
    requires
        call_ensures(audit_result, (cloaks,), r),
    ensures
        r is Err <==> exists|i: int|
            0 <= i < cloaks@.len() && (#[trigger] cloaks@[i]).cache_hidden > 0,
{
    let cs = cloaks.deep_view();
    if exists|i: int| 0 <= i < cloaks@.len() && (#[trigger] cloaks@[i]).cache_hidden > 0 {
        let i = choose|i: int| 0 <= i < cloaks@.len() && (#[trigger] cloaks@[i]).cache_hidden > 0;
        assert(cs[i] == cloaks@[i].deep_view());
        law_any_hidden_copy_counts(cs, i);
    } else {
        assert forall|i: int| 0 <= i < cs.len() implies (#[trigger] cs[i]).cache_hidden == 0 by {
            assert(cs[i] == cloaks@[i].deep_view());
        }
        law_nothing_hidden_counts_nothing(cs);
    }
}

/// Copies that agree, or a single copy, are no cloak; a copy below the first with
/// another digest makes one.
pub proof fn law_cloak_is_another_digest_below(copies: Seq<(Seq<char>, Seq<char>)>)
    ensures
        verdict(copies).0 <==> exists|i: int|
            0 < i < copies.len() && (#[trigger] copies[i]).1 != copies[0].1,
{
    if copies.len() >= 2 {
        let winner = copies[0].1;
        let losers = copies.skip(1);
        let p = differs(winner);
        if verdict(copies).0 {
            let x = losers.filter(p)[0];
            lemma_filter_contains(losers, p, x);
            assert(losers.filter(p).contains(x));
            let k = choose|k: int| 0 <= k < losers.len() && losers[k] == x;
            assert(copies[k + 1].1 != copies[0].1);
        }
        if exists|i: int| 0 < i < copies.len() && (#[trigger] copies[i]).1 != copies[0].1 {
            let i = choose|i: int| 0 < i < copies.len() && (#[trigger] copies[i]).1 != copies[0].1;
            assert(losers[i - 1] == copies[i]);
            lemma_filter_contains(losers, p, copies[i]);
            assert(losers.filter(p).contains(copies[i]));
        }
    }
}

/// One copy more at the end hides one cache copy more exactly where it is a cache
/// copy with another digest than the first.
pub proof fn law_each_hidden_cache_copy_counts_once(
    copies: Seq<(Seq<char>, Seq<char>)>,
    more: (Seq<char>, Seq<char>),
)
    ensures
        verdict(Seq::empty()).1 == 0,
        copies.len() == 0 ==> verdict(copies.push(more)).1 == 0,
        copies.len() > 0 ==> verdict(copies.push(more)).1 == verdict(copies).1 + (if more.1
            != copies[0].1 && more.0 == "cache"@ {
            1int
        } else {
            0int
        }),
{
    if copies.len() > 0 {
        let losers = copies.skip(1);
        let p = hidden_cache(copies[0].1);
        assert(copies.push(more).skip(1) =~= losers.push(more));
        losers.lemma_filter_push(more, p);
        if copies.len() == 1 {
            reveal(Seq::filter);
            assert(losers =~= Seq::<(Seq<char>, Seq<char>)>::empty());
            assert(losers.filter(p).len() == 0);
        }
    }
}

/// The digests of some copies are all the same.
pub open spec fn one_digest(copies: Seq<HolderView>) -> bool {
    forall|i: int, j: int|
        0 <= i < copies.len() && 0 <= j < copies.len() ==> (#[trigger] copies[i]).digest == (
        #[trigger] copies[j]).digest
}

/// Sorting keeps the copies.
proof fn lemma_sorted_holds(copies: Seq<HolderView>, h: HolderView)
    ensures
        in_order(copies).contains(h) <==> copies.contains(h),
{
    law_copies_are_in_order(copies);
    broadcast use vstd::seq_lib::group_to_multiset_ensures;

    assert(copies.contains(h) <==> copies.to_multiset().count(h) > 0);
    assert(in_order(copies).contains(h) <==> in_order(copies).to_multiset().count(h) > 0);
}

/// A tag is judged by its copies: alone with fewer than two, harmless where they
/// have one digest, else cloaked, with all copies in the order of the members.
pub proof fn law_tag_is_judged_by_its_digests(
    image: Seq<char>,
    tag: Seq<char>,
    copies: Seq<HolderView>,
)
    ensures
        tag_verdict(image, tag, copies) is Alone <==> copies.len() < 2,
        tag_verdict(image, tag, copies) is Benign <==> copies.len() >= 2 && one_digest(copies),
        tag_verdict(image, tag, copies) matches TagVerdictView::Cloaked(c) ==> c.image == image
            && c.tag == tag && c.holders.to_multiset() == copies.to_multiset() && forall|
            i: int,
            j: int,
        |
            0 <= i < j < c.holders.len() ==> (#[trigger] c.holders[i]).order <= (
            #[trigger] c.holders[j]).order,
{
    let sorted = in_order(copies);
    let pairs = sorted.map_values(type_and_digest());
    law_copies_are_in_order(copies);
    law_cloak_is_another_digest_below(pairs);
    if copies.len() >= 2 {
        if one_digest(copies) && verdict(pairs).0 {
            let i = choose|i: int| 0 < i < pairs.len() && (#[trigger] pairs[i]).1 != pairs[0].1;
            assert(pairs[i].1 == sorted[i].digest);
            assert(pairs[0].1 == sorted[0].digest);
            lemma_sorted_holds(copies, sorted[i]);
            lemma_sorted_holds(copies, sorted[0]);
            assert(sorted.contains(sorted[i]) && sorted.contains(sorted[0]));
            let x = choose|x: int| 0 <= x < copies.len() && copies[x] == sorted[i];
            let y = choose|y: int| 0 <= y < copies.len() && copies[y] == sorted[0];
            assert(copies[x].digest == copies[y].digest);
        }
        if !verdict(pairs).0 {
            assert forall|i: int, j: int|
                0 <= i < copies.len() && 0 <= j < copies.len() implies (#[trigger] copies[i]).digest
                == (#[trigger] copies[j]).digest by {
                lemma_sorted_holds(copies, copies[i]);
                lemma_sorted_holds(copies, copies[j]);
                assert(copies.contains(copies[i]) && copies.contains(copies[j]));
                let x = choose|x: int| 0 <= x < sorted.len() && sorted[x] == copies[i];
                let y = choose|y: int| 0 <= y < sorted.len() && sorted[y] == copies[j];
                assert(pairs[x].1 == copies[i].digest && pairs[y].1 == copies[j].digest);
                assert(pairs[x].1 == pairs[0].1);
                assert(pairs[y].1 == pairs[0].1);
            }
        }
    }
}

/// A cloaked tag with a cache copy of another digest than the first member's copy
/// hides that copy.
pub proof fn law_hidden_cache_is_seen(
    image: Seq<char>,
    tag: Seq<char>,
    copies: Seq<HolderView>,
    i: int,
    j: int,
)
    requires
        copies.len() <= usize::MAX,
        0 <= i < copies.len(),
        0 <= j < copies.len(),
        forall|k: int| 0 <= k < copies.len() && k != i ==> copies[i].order < (
        #[trigger] copies[k]).order,
        copies[j].repo_type == "cache"@,
        copies[j].digest != copies[i].digest,
    ensures
        tag_verdict(image, tag, copies) matches TagVerdictView::Cloaked(c) && c.cache_hidden > 0
            && c.holders[0] == copies[i],
{
    let sorted = in_order(copies);
    let pairs = sorted.map_values(type_and_digest());
    law_copies_are_in_order(copies);
    law_tag_is_judged_by_its_digests(image, tag, copies);
    lemma_sorted_holds(copies, copies[i]);
    lemma_sorted_holds(copies, copies[j]);
    lemma_sorted_holds(copies, sorted[0]);
    assert(copies.contains(copies[i]) && copies.contains(copies[j]));
    assert(sorted.contains(sorted[0]));
    let first = choose|x: int| 0 <= x < copies.len() && copies[x] == sorted[0];
    let at = choose|x: int| 0 <= x < sorted.len() && sorted[x] == copies[i];
    if first != i {
        assert(copies[i].order < copies[first].order);
        if at > 0 {
            assert(sorted[0].order <= sorted[at].order);
        }
    }
    assert(sorted[0] == copies[i]);
    let k = choose|x: int| 0 <= x < sorted.len() && sorted[x] == copies[j];
    assert(k > 0);
    let losers = pairs.skip(1);
    let p = hidden_cache(pairs[0].1);
    assert(losers[k - 1] == (copies[j].repo_type, copies[j].digest));
    lemma_filter_contains(losers, p, losers[k - 1]);
    assert(losers.contains(losers[k - 1]));
    assert(losers.filter(p).contains(losers[k - 1]));
    losers.lemma_filter_len(p);
    assert(verdict(pairs).1 > 0);
    assert(verdict(pairs).1 <= usize::MAX);
    assert(!one_digest(copies)) by {
        assert(copies[i].digest != copies[j].digest);
    }
}

/// The type of a repository is that of the first one of its name; one that is not
/// there has a question mark.
pub proof fn law_type_is_that_of_the_first(repos: Seq<MemberRepo>, name: Seq<char>, i: int)
    ensures
        0 <= i < repos.len() && repos[i].name@ == name && (forall|j: int|
            0 <= j < i ==> (#[trigger] repos[j]).name@ != name) ==> kind_name(repos, name)
            == repos[i].repo_type@,
        (forall|j: int| 0 <= j < repos.len() ==> (#[trigger] repos[j]).name@ != name)
            ==> kind_name(repos, name) == "?"@,
{
    let p = repo_named(name);
    if 0 <= i < repos.len() && repos[i].name@ == name && (forall|j: int|
        0 <= j < i ==> (#[trigger] repos[j]).name@ != name) {
        assert forall|j: int| 0 <= j < i implies !p(#[trigger] repos[j]) by {
            assert(repos[j].name@ != name);
        }
        lemma_first_found(repos, p, i);
    }
    if forall|j: int| 0 <= j < repos.len() ==> (#[trigger] repos[j]).name@ != name {
        assert forall|j: int| 0 <= j < repos.len() implies !p(#[trigger] repos[j]) by {
            assert(repos[j].name@ != name);
        }
        lemma_first_none(repos, p);
    }
}

/// The members of a group are those that the first repository of that name lists,
/// in order; a group without members, or one that is not there, is refused.
pub proof fn law_members_are_those_listed(
    repos: &[MemberRepo],
    group: &str,
    r: Result<Vec<String>, String>,
    i: int,
)
    requires
        call_ensures(group_members, (repos, group), r),
    ensures
        0 <= i < repos@.len() && repos@[i].name@ == group@ && (forall|j: int|
            0 <= j < i ==> (#[trigger] repos@[j]).name@ != group@) ==> (r is Err
            <==> repos@[i].members@.len() == 0) && (r matches Ok(m) ==> m.deep_view()
            == repos@[i].members.deep_view()),
        (forall|j: int| 0 <= j < repos@.len() ==> (#[trigger] repos@[j]).name@ != group@)
            ==> r is Err,
{
    let p = repo_named(group@);
    if 0 <= i < repos@.len() && repos@[i].name@ == group@ && (forall|j: int|
        0 <= j < i ==> (#[trigger] repos@[j]).name@ != group@) {
        assert forall|j: int| 0 <= j < i implies !p(#[trigger] repos@[j]) by {
            assert(repos@[j].name@ != group@);
        }
        lemma_first_found(repos@, p, i);
    }
    if forall|j: int| 0 <= j < repos@.len() ==> (#[trigger] repos@[j]).name@ != group@ {
        assert forall|j: int| 0 <= j < repos@.len() implies !p(#[trigger] repos@[j]) by {
            assert(repos@[j].name@ != group@);
        }
        lemma_first_none(repos@, p);
    }
}

/// The members that hold a tag are those whose inventory lists it.
pub proof fn law_holders_are_the_members_that_list_the_tag(
    inventories: Seq<Seq<(Seq<char>, Seq<char>)>>,
    n: int,
    image: Seq<char>,
    tag: Seq<char>,
    m: usize,
)
    requires
        0 <= n <= inventories.len(),
        n <= usize::MAX,
    ensures
        held_items(inventories, n).contains((key2(image, tag), m)) <==> m < n
            && inventories[m as int].contains((image, tag)),
    decreases n,
{
    if n > 0 {
        law_holders_are_the_members_that_list_the_tag(inventories, n - 1, image, tag, m);
        let a = held_items(inventories, n - 1);
        let inv = inventories[n - 1];
        let f = member_items((n - 1) as usize);
        let b = inv.map_values(f);
        let x = (key2(image, tag), m);
        assert((a + b).contains(x) <==> a.contains(x) || b.contains(x)) by {
            if a.contains(x) {
                let i = choose|i: int| 0 <= i < a.len() && a[i] == x;
                assert((a + b)[i] == x);
            }
            if b.contains(x) {
                let i = choose|i: int| 0 <= i < b.len() && b[i] == x;
                assert((a + b)[a.len() + i] == x);
            }
            if (a + b).contains(x) {
                let i = choose|i: int| 0 <= i < (a + b).len() && (a + b)[i] == x;
                if i < a.len() {
                    assert(a[i] == x);
                } else {
                    assert(b[i - a.len()] == x);
                }
            }
        }
        if b.contains(x) {
            let i = choose|i: int| 0 <= i < b.len() && b[i] == x;
            assert(key2(inv[i].0, inv[i].1)[0] == key2(image, tag)[0]);
            assert(key2(inv[i].0, inv[i].1)[1] == key2(image, tag)[1]);
            assert(inv[i] == (image, tag));
        }
        if m == n - 1 && inv.contains((image, tag)) {
            let i = choose|i: int| 0 <= i < inv.len() && inv[i] == (image, tag);
            assert(b[i] == x);
        }
    }
}

/// The report of an audit ends with a warning exactly where a cache copy is hidden.
pub proof fn law_report_warns_of_hidden_copies(cloaks: Seq<CloakView>, benign: nat)
    ensures
        audit_lines(cloaks, benign).len() >= 2,
        cloaks.len() == 0 ==> audit_lines(cloaks, benign).len() == 2,
        audit_lines(cloaks, benign).last().len() > 1,
        (audit_lines(cloaks, benign).last()[1] == '\u{26a0}') <==> exists|i: int|
            0 <= i < cloaks.len() && (#[trigger] cloaks[i]).cache_hidden > 0,
{
    reveal_strlit("\n\u{26a0}  ");
    reveal_strlit(
        "\nNo cache members are cloaked by different content (the dangerous direction). \u{2713}",
    );
    reveal_strlit("\nNo cloaks: every multi-member tag resolves to identical content. \u{2713}");
    if exists|i: int| 0 <= i < cloaks.len() && (#[trigger] cloaks[i]).cache_hidden > 0 {
        let i = choose|i: int| 0 <= i < cloaks.len() && (#[trigger] cloaks[i]).cache_hidden > 0;
        law_any_hidden_copy_counts(cloaks, i);
    } else {
        law_nothing_hidden_counts_nothing(cloaks);
    }
}

/// The members of a group are numbered from one, in their order, with their types.
pub proof fn law_members_are_numbered(repos: Seq<MemberRepo>, members: Seq<Seq<char>>, i: int)
    ensures
        numbered(repos, members).len() == members.len(),
        0 <= i < members.len() ==> numbered(repos, members)[i] == decimal((i + 1) as nat) + ". "@
            + members[i] + " ("@ + kind_name(repos, members[i]) + ")"@,
{
}

/// A copy is shown as the winner where it comes first, as a mirror where it has the
/// winner's digest, and else as cloaked; a cloaked cache copy is marked.
pub proof fn law_copies_are_shown_by_their_digests(winner: Seq<char>, h: HolderView, first: bool)
    ensures
        ({
            let shown = " -> ("@ + h.member + ") "@ + h.repo_type + " ["@ + short_digest(h.digest)
                + "]  built "@ + (match h.built {
                Some(b) => b,
                None => "?"@,
            }) + "  last-pull "@ + (match h.accessed {
                Some(a) => a,
                None => "never/unknown"@,
            });
            let line = copy_line(winner, h, first);
            &&& first ==> line == "      winner "@ + shown
            &&& !first && h.digest == winner ==> line == "      mirror "@ + shown
            &&& !first && h.digest != winner && h.repo_type != "cache"@ ==> line
                == "      cloaked"@ + shown
            &&& !first && h.digest != winner && h.repo_type == "cache"@ ==> line
                == "      cloaked"@ + shown + "   <-- CACHE HIDDEN (canonical content overridden)"@
        }),
{
    let shown = " -> ("@ + h.member + ") "@ + h.repo_type + " ["@ + short_digest(h.digest)
        + "]  built "@ + (match h.built {
        Some(b) => b,
        None => "?"@,
    }) + "  last-pull "@ + (match h.accessed {
        Some(a) => a,
        None => "never/unknown"@,
    });
    let line = copy_line(winner, h, first);
    reveal_strlit("      ");
    reveal_strlit("winner ");
    reveal_strlit("mirror ");
    reveal_strlit("cloaked");
    reveal_strlit("      winner ");
    reveal_strlit("      mirror ");
    reveal_strlit("      cloaked");
    assert("      "@ + "winner "@ =~= "      winner "@);
    assert("      "@ + "mirror "@ =~= "      mirror "@);
    assert("      "@ + "cloaked"@ =~= "      cloaked"@);
    if first {
        assert(line =~= "      winner "@ + shown);
    } else if h.digest == winner {
        assert(line =~= "      mirror "@ + shown);
    } else if h.repo_type == "cache"@ {
        assert(line =~= "      cloaked"@ + shown
            + "   <-- CACHE HIDDEN (canonical content overridden)"@);
    } else {
        assert(line =~= "      cloaked"@ + shown);
    }
}

/// Every cloak is shown: its tag, then each of its copies against the first.
pub proof fn law_every_copy_is_shown(cloaks: Seq<CloakView>, benign: nat, c: CloakView, i: int)
    requires
        cloaks.contains(c),
        0 <= i < c.holders.len(),
    ensures
        audit_lines(cloaks, benign).contains("  "@ + c.image + ":"@ + c.tag),
        audit_lines(cloaks, benign).contains(
            copy_line(c.holders[0].digest, c.holders[i], i == 0),
        ),
{
    let f = cloak_lines();
    let k = choose|k: int| 0 <= k < cloaks.len() && cloaks[k] == c;
    let own = f(cloaks[k]);
    let a = own[0];
    let b = own[i + 1];
    assert(own.contains(a) && own.contains(b));
    assert(f(cloaks[k]).contains(a));
    assert(f(cloaks[k]).contains(b));
    lemma_spread_contains(cloaks, f, a);
    lemma_spread_contains(cloaks, f, b);
    let body = spread(cloaks, f);
    let x = choose|x: int| 0 <= x < body.len() && body[x] == a;
    let y = choose|y: int| 0 <= y < body.len() && body[y] == b;
    let lines = audit_lines(cloaks, benign);
    let n = lines.len() - 1 - body.len();
    assert(lines[n + x] == body[x]);
    assert(lines[n + y] == body[y]);
}

} // verus!
