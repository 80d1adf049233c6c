//! Which tags are set, and which options they select.

use super::tags::{
    after_rules, all_satisfied, by_client, by_tags, client_has_code, distinct, matched_in, negated, occurs_from, option_matches,
    pattern_matches, satisfied, selected, selection_of, sent, tag_selected, tags_have_code, with_missing, Rule, Selection,
};
use crate::dhcp_types::{nets, DhcpNetid, DhcpOpt};
use vstd::prelude::*;

verus! {

/// A tag without a sign and without a star asks that it is set; behind `!` or `#` it asks that it is not. One with a star at
/// its end asks for a tag that starts like it, and behind a sign that there is none.
pub proof fn law_what_a_tag_asks_for(t: Seq<char>, pool: Seq<Seq<char>>, sign: char)
    requires
        sign == '!' || sign == '#',
        t.len() == 0 || (t[0] != '!' && t[0] != '#'),
        t.len() == 0 || t.last() != '*',
    ensures
        satisfied(t, pool) <==> pool.contains(t),
        satisfied(seq![sign] + t, pool) <==> !pool.contains(t),
        satisfied(t.push('*'), pool) <==> exists|i: int| 0 <= i < pool.len() && t.is_prefix_of(#[trigger] pool[i]),
        satisfied(seq![sign] + t.push('*'), pool) <==> forall|i: int|
            0 <= i < pool.len() ==> !t.is_prefix_of(#[trigger] pool[i]),
{
    let star = t.push('*');
    let no = seq![sign] + t;
    let no_star = seq![sign] + star;
    assert(no.skip(1) =~= t);
    assert(no_star.skip(1) =~= star);
    assert(star.drop_last() =~= t);
    assert(star.last() == '*');
    assert(!negated(t));
    assert(!negated(star));
    assert(matched_in(t, pool) <==> pool.contains(t)) by {
        if matched_in(t, pool) {
            let i = choose|i: int| 0 <= i < pool.len() && pattern_matches(t, #[trigger] pool[i]);
            assert(pool[i] == t);
        }
        if pool.contains(t) {
            let i = choose|i: int| 0 <= i < pool.len() && pool[i] == t;
            assert(pattern_matches(t, pool[i]));
        }
    }
    assert(matched_in(star, pool) <==> exists|i: int| 0 <= i < pool.len() && t.is_prefix_of(#[trigger] pool[i])) by {
        if matched_in(star, pool) {
            let i = choose|i: int| 0 <= i < pool.len() && pattern_matches(star, #[trigger] pool[i]);
            assert(t.is_prefix_of(pool[i]));
        }
        if exists|i: int| 0 <= i < pool.len() && t.is_prefix_of(#[trigger] pool[i]) {
            let i = choose|i: int| 0 <= i < pool.len() && t.is_prefix_of(#[trigger] pool[i]);
            assert(pattern_matches(star, pool[i]));
        }
    }
}

/// Tags are asked for one by one: two lists together are satisfied where each of them is, and no tags at all always are.
pub proof fn law_every_tag_counts(a: Seq<Seq<char>>, b: Seq<Seq<char>>, pool: Seq<Seq<char>>)
    ensures
        all_satisfied(a + b, pool) <==> all_satisfied(a, pool) && all_satisfied(b, pool),
        all_satisfied(seq![], pool),
        a.len() == 1 ==> (all_satisfied(a, pool) <==> satisfied(a[0], pool)),
{
    let all = a + b;
    if all_satisfied(all, pool) {
        assert forall|i: int| 0 <= i < a.len() implies satisfied(#[trigger] a[i], pool) by {
            assert(all[i] == a[i]);
        }
        assert forall|i: int| 0 <= i < b.len() implies satisfied(#[trigger] b[i], pool) by {
            assert(all[a.len() + i] == b[i]);
        }
    }
}

/// Setting tags sets those and no others.
proof fn lemma_missing(tags: Seq<Seq<char>>, new: Seq<Seq<char>>, t: Seq<char>)
    ensures
        with_missing(tags, new).contains(t) <==> tags.contains(t) || new.contains(t),
    decreases new.len(),
{
    if new.len() > 0 {
        let d = new.drop_last();
        lemma_missing(tags, d, t);
        let so_far = with_missing(tags, d);
        let all = with_missing(tags, new);
        lemma_missing(tags, d, new.last());
        if all.contains(t) {
            let i = choose|i: int| 0 <= i < all.len() && all[i] == t;
            if i < so_far.len() {
                assert(so_far[i] == t);
            } else {
                assert(new[new.len() - 1] == t);
            }
            if d.contains(t) {
                let j = choose|j: int| 0 <= j < d.len() && d[j] == t;
                assert(new[j] == t);
            }
        }
        if so_far.contains(t) {
            let i = choose|i: int| 0 <= i < so_far.len() && so_far[i] == t;
            assert(all[i] == t);
        }
        if new.contains(t) {
            let j = choose|j: int| 0 <= j < new.len() && new[j] == t;
            if j < d.len() {
                assert(d[j] == t);
            } else if !so_far.contains(t) {
                assert(all[so_far.len() as int] == t);
            }
        }
    }
}

/// The rules apply in order, each to the tags that those before it left: a rule that is satisfied by these sets its own tags
/// besides, and one that is not sets none.
pub proof fn law_rules_apply_in_order(tags: Seq<Seq<char>>, before: Seq<Rule>, rule: Rule, t: Seq<char>)
    ensures
        after_rules(tags, seq![]) == tags,
        ({
            let so_far = after_rules(tags, before);
            let now = after_rules(tags, before.push(rule));
            &&& all_satisfied(rule.tag, so_far) ==> (now.contains(t) <==> so_far.contains(t) || rule.set.contains(t))
            &&& !all_satisfied(rule.tag, so_far) ==> now == so_far
        }),
{
    let rules = before.push(rule);
    assert(rules.drop_last() =~= before);
    assert(rules.last() == rule);
    lemma_missing(after_rules(tags, before), rule.set, t);
}

/// Rules in two lists apply one list after the other.
pub proof fn law_rules_apply_one_after_another(tags: Seq<Seq<char>>, a: Seq<Rule>, b: Seq<Rule>)
    ensures
        after_rules(tags, a + b) == after_rules(after_rules(tags, a), b),
    decreases b.len(),
{
    if b.len() == 0 {
        assert(a + b =~= a);
    } else {
        law_rules_apply_one_after_another(tags, a, b.drop_last());
        assert((a + b).drop_last() =~= a + b.drop_last());
        assert((a + b).last() == b.last());
    }
}

/// Every rule counts: where its tags are satisfied when its turn comes, all the tags that it sets are set in the end. A tag
/// that is set in the end was set from the start, or by a rule whose tags were satisfied when its turn came.
pub proof fn law_every_rule_counts(tags: Seq<Seq<char>>, rules: Seq<Rule>, i: int, t: Seq<char>)
    ensures
        0 <= i < rules.len() && all_satisfied(rules[i].tag, after_rules(tags, rules.take(i))) && rules[i].set.contains(t)
            ==> after_rules(tags, rules).contains(t),
        after_rules(tags, rules).contains(t) <==> tags.contains(t) || exists|k: int|
            0 <= k < rules.len() && (#[trigger] rules[k]).set.contains(t) && all_satisfied(
                rules[k].tag,
                after_rules(tags, rules.take(k)),
            ),
    decreases rules.len(),
{
    if rules.len() == 0 {
    } else {
        let d = rules.drop_last();
        let n = rules.len() - 1;
        law_every_rule_counts(tags, d, i, t);
        law_rules_apply_in_order(tags, d, rules.last(), t);
        assert(d.push(rules.last()) =~= rules);
        assert(rules.take(n) =~= d);
        assert forall|k: int| 0 <= k < n implies #[trigger] d[k] == rules[k] && d.take(k) == rules.take(k) by {
            assert(d.take(k) =~= rules.take(k));
        }
        if 0 <= i < n {
            assert(d[i] == rules[i]);
        }
        if after_rules(tags, d).contains(t) && !tags.contains(t) {
            let k = choose|k: int|
                0 <= k < d.len() && (#[trigger] d[k]).set.contains(t) && all_satisfied(d[k].tag, after_rules(tags, d.take(k)));
            assert(rules[k] == d[k]);
        }
        if exists|k: int|
            0 <= k < rules.len() && (#[trigger] rules[k]).set.contains(t) && all_satisfied(
                rules[k].tag,
                after_rules(tags, rules.take(k)),
            ) {
            let k = choose|k: int|
                0 <= k < rules.len() && (#[trigger] rules[k]).set.contains(t) && all_satisfied(
                    rules[k].tag,
                    after_rules(tags, rules.take(k)),
                );
            if k < n {
                assert(d[k] == rules[k]);
            }
        }
        if all_satisfied(rules.last().tag, after_rules(tags, d)) && rules.last().set.contains(t) {
            assert(rules[n].set.contains(t));
        }
    }
}

/// The tags that select options hold all the tags of the client; those with the range hold those of the range too.
pub proof fn law_selecting_tags(
    tags: Seq<Seq<char>>,
    context: Option<Vec<DhcpNetid>>,
    pxemode: u8,
    rules: Seq<Rule>,
    t: Seq<char>,
)
    ensures
        ({
            let sel = selection_of(tags, context, pxemode, rules);
            &&& sel.pxemode == pxemode
            &&& tags.contains(t) ==> sel.tags.contains(t)
            &&& sel.with_context is Some <==> context is Some
            &&& context matches Some(c) ==> {
                &&& nets(c@).contains(t) ==> sel.with_context->0.contains(t)
                &&& sel.tags.contains(t) ==> sel.with_context->0.contains(t)
            }
            &&& rules.len() == 0 ==> sel.tags == tags
            &&& rules.len() == 0 ==> (context matches Some(c) ==> sel.with_context == Some(nets(c@) + tags))
        }),
{
    let own = after_rules(tags, rules);
    law_every_rule_counts(tags, rules, 0, t);
    if let Some(c) = context {
        law_every_rule_counts(nets(c@) + own, rules, 0, t);
        let all = nets(c@) + own;
        if nets(c@).contains(t) {
            let i = choose|i: int| 0 <= i < nets(c@).len() && nets(c@)[i] == t;
            assert(all[i] == t);
        }
        if own.contains(t) {
            let i = choose|i: int| 0 <= i < own.len() && own[i] == t;
            assert(all[nets(c@).len() + i] == t);
        }
    }
}

/// How well an option goes with a selection, the least number being best: 0 where it has tags and those of the client
/// satisfy them, and still do with those of the range; 1 where it has tags and those with the range satisfy them; 2 where it
/// has no tags; 3 where it cannot be sent, because its tags are not satisfied, because it goes inside another option, or
/// because of the PXE mode, of which 0 leaves out what is for PXE only and 2 all else.
pub open spec fn fit(o: DhcpOpt, sel: Selection) -> int {
    let want = nets(o.netid@);
    if o.flags.encapsulate || o.flags.vendor || o.flags.rfc3925 {
        3
    } else if (o.flags.pxe_opt && sel.pxemode == 0) || (!o.flags.pxe_opt && sel.pxemode == 2) {
        3
    } else if o.netid@.len() == 0 {
        2
    } else {
        match sel.with_context {
            None => if all_satisfied(want, sel.tags) {
                0
            } else {
                3
            },
            Some(c) => if !all_satisfied(want, c) {
                3
            } else if all_satisfied(want, sel.tags) {
                0
            } else {
                1
            },
        }
    }
}

/// Of the options with one code, the one is sent that fits best, and the first of those that fit best; none is sent where
/// none can be.
pub proof fn law_best_option_is_sent(opts: Seq<DhcpOpt>, i: int, sel: Selection)
    requires
        0 <= i < opts.len(),
    ensures
        sent(opts, i, sel) <==> fit(opts[i], sel) < 3 && forall|j: int|
            0 <= j < opts.len() && (#[trigger] opts[j]).opt == opts[i].opt && j != i ==> fit(opts[j], sel) > fit(opts[i], sel) || (
            fit(opts[j], sel) == fit(opts[i], sel) && j > i),
{
    let code = opts[i].opt;
    assert forall|j: int| 0 <= j < opts.len() implies by_client(opts, j, sel) == (fit(#[trigger] opts[j], sel) == 0) by {}
    assert(client_has_code(opts, code, sel) <==> exists|j: int|
        0 <= j < opts.len() && (#[trigger] opts[j]).opt == code && fit(opts[j], sel) == 0);
    assert forall|j: int| 0 <= j < opts.len() && (#[trigger] opts[j]).opt == code implies by_tags(opts, j, sel) == (fit(
        opts[j],
        sel,
    ) == 0 || (fit(opts[j], sel) == 1 && !client_has_code(opts, code, sel))) by {}
    assert(tags_have_code(opts, code, sel) <==> exists|j: int|
        0 <= j < opts.len() && (#[trigger] opts[j]).opt == code && fit(opts[j], sel) <= 1) by {
        if tags_have_code(opts, code, sel) {
            let j = choose|j: int| 0 <= j < opts.len() && (#[trigger] opts[j]).opt == code && by_tags(opts, j, sel);
            assert(fit(opts[j], sel) <= 1);
        }
        if exists|j: int| 0 <= j < opts.len() && (#[trigger] opts[j]).opt == code && fit(opts[j], sel) <= 1 {
            let j = choose|j: int| 0 <= j < opts.len() && (#[trigger] opts[j]).opt == code && fit(opts[j], sel) <= 1;
            if client_has_code(opts, code, sel) {
                let k = choose|k: int| 0 <= k < opts.len() && (#[trigger] opts[k]).opt == code && by_client(opts, k, sel);
                assert(by_tags(opts, k, sel));
            } else {
                assert(by_tags(opts, j, sel));
            }
        }
    }
    assert forall|j: int| 0 <= j < opts.len() && (#[trigger] opts[j]).opt == code implies selected(opts, j, sel) == (fit(
        opts[j],
        sel,
    ) < 3 && forall|k: int|
        0 <= k < opts.len() && (#[trigger] opts[k]).opt == code ==> fit(opts[k], sel) >= fit(opts[j], sel)) by {
        let f = fit(opts[j], sel);
        if selected(opts, j, sel) {
            assert(f < 3);
            assert forall|k: int| 0 <= k < opts.len() && (#[trigger] opts[k]).opt == code implies fit(opts[k], sel) >= f by {
                if fit(opts[k], sel) < f {
                    if fit(opts[k], sel) == 0 {
                        assert(by_client(opts, k, sel));
                        assert(client_has_code(opts, code, sel));
                    }
                    assert(tags_have_code(opts, code, sel));
                }
            }
        }
        if f < 3 && forall|k: int| 0 <= k < opts.len() && (#[trigger] opts[k]).opt == code ==> fit(opts[k], sel) >= f {
            assert(selected(opts, j, sel));
        }
    }
    if sent(opts, i, sel) {
        assert forall|j: int| 0 <= j < opts.len() && (#[trigger] opts[j]).opt == opts[i].opt && j != i implies fit(opts[j], sel)
            > fit(opts[i], sel) || (fit(opts[j], sel) == fit(opts[i], sel) && j > i) by {
            if fit(opts[j], sel) == fit(opts[i], sel) {
                assert(selected(opts, j, sel));
            }
        }
    }
    if fit(opts[i], sel) < 3 && forall|j: int|
        0 <= j < opts.len() && (#[trigger] opts[j]).opt == opts[i].opt && j != i ==> fit(opts[j], sel) > fit(opts[i], sel) || (fit(
            opts[j],
            sel,
        ) == fit(opts[i], sel) && j > i) {
        assert forall|k: int| 0 <= k < opts.len() && (#[trigger] opts[k]).opt == code implies fit(opts[k], sel) >= fit(opts[i], sel) by {}
        assert(selected(opts, i, sel));
        assert forall|j: int| 0 <= j < i && selected(opts, j, sel) implies (#[trigger] opts[j]).opt != opts[i].opt by {
            if opts[j].opt == code {
                assert(fit(opts[i], sel) >= fit(opts[j], sel));
            }
        }
    }
}

/// The first of the options with a code that fit best, among those from number `i` on.
proof fn lemma_best(opts: Seq<DhcpOpt>, code: i32, sel: Selection, n: int) -> (b: int)
    requires
        0 <= n <= opts.len(),
    ensures
        -1 <= b < n,
        b == -1 ==> forall|j: int| 0 <= j < n ==> (#[trigger] opts[j]).opt != code,
        b >= 0 ==> opts[b].opt == code && forall|j: int|
            0 <= j < n && (#[trigger] opts[j]).opt == code && j != b ==> fit(opts[j], sel) > fit(opts[b], sel) || (fit(opts[j], sel)
                == fit(opts[b], sel) && j > b),
    decreases n,
{
    if n == 0 {
        -1
    } else {
        let b = lemma_best(opts, code, sel, n - 1);
        if opts[n - 1].opt == code && (b == -1 || fit(opts[n - 1], sel) < fit(opts[b], sel)) {
            n - 1
        } else {
            b
        }
    }
}

/// For every option that can be sent, one with its code is sent, that fits at least as well. So where the tags of the range
/// satisfy those of an option, an option with its code that has tags is sent, and where the client's do, one that these
/// satisfy too.
pub proof fn law_something_is_sent_for_every_code(opts: Seq<DhcpOpt>, i: int, sel: Selection)
    requires
        0 <= i < opts.len(),
        fit(opts[i], sel) < 3,
    ensures
        exists|j: int|
            0 <= j < opts.len() && (#[trigger] opts[j]).opt == opts[i].opt && sent(opts, j, sel) && fit(opts[j], sel) <= fit(
                opts[i],
                sel,
            ),
{
    let b = lemma_best(opts, opts[i].opt, sel, opts.len() as int);
    assert(opts[i].opt == opts[i].opt);
    assert(b >= 0);
    assert(fit(opts[b], sel) <= fit(opts[i], sel));
    law_best_option_is_sent(opts, b, sel);
    assert(opts[b].opt == opts[i].opt && sent(opts, b, sel));
}

/// Where the tags with those of the range satisfy the tags of an option that can be sent, an option with its code that has
/// tags is sent.
pub proof fn law_range_tags_select(opts: Seq<DhcpOpt>, i: int, sel: Selection, c: Seq<Seq<char>>)
    requires
        0 <= i < opts.len(),
        sel.with_context == Some(c),
        tag_selected(opts[i], c, sel.pxemode),
    ensures
        exists|j: int|
            0 <= j < opts.len() && (#[trigger] opts[j]).opt == opts[i].opt && opts[j].netid@.len() > 0 && sent(opts, j, sel),
{
    assert(fit(opts[i], sel) <= 1);
    law_something_is_sent_for_every_code(opts, i, sel);
    let j = choose|j: int|
        0 <= j < opts.len() && (#[trigger] opts[j]).opt == opts[i].opt && sent(opts, j, sel) && fit(opts[j], sel) <= fit(opts[i], sel);
    assert(opts[j].netid@.len() > 0);
}

/// Each item is listed once, where it first stands, and none is left out.
pub proof fn law_distinct(s: Seq<Seq<char>>, t: Seq<char>)
    ensures
        distinct(s).no_duplicates(),
        distinct(s).contains(t) <==> s.contains(t),
        s.no_duplicates() ==> distinct(s) == s,
    decreases s.len(),
{
    if s.len() > 0 {
        let d = s.drop_last();
        law_distinct(d, t);
        law_distinct(d, s.last());
        let r = distinct(d);
        let all = distinct(s);
        if s.contains(t) {
            let i = choose|i: int| 0 <= i < s.len() && s[i] == t;
            if i < d.len() {
                assert(d[i] == t);
                let j = choose|j: int| 0 <= j < r.len() && r[j] == t;
                assert(all[j] == t);
            } else if d.contains(t) {
                assert(all == r);
            } else {
                assert(all[r.len() as int] == t);
            }
        }
        if all.contains(t) {
            let j = choose|j: int| 0 <= j < all.len() && all[j] == t;
            if j < r.len() {
                assert(r[j] == t);
                let i = choose|i: int| 0 <= i < d.len() && d[i] == t;
                assert(s[i] == t);
            } else {
                assert(s[s.len() - 1] == t);
            }
        }
        if s.no_duplicates() {
            assert(d.no_duplicates());
            assert(!d.contains(s.last())) by {
                if d.contains(s.last()) {
                    let i = choose|i: int| 0 <= i < d.len() && d[i] == s.last();
                    assert(s[i] == s[s.len() - 1]);
                }
            }
            assert(all =~= s);
        }
    }
}

/// A value occurs where it stands some steps from the position at hand.
proof fn lemma_occurs(val: Seq<u8>, data: Seq<u8>, step: int, i: int, n: int)
    requires
        step > 0,
        0 <= i,
        0 <= n,
        i + n * step + val.len() <= data.len(),
        data.subrange(i + n * step, i + n * step + val.len()) == val,
    ensures
        occurs_from(val, data, step, i),
    decreases n,
{
    if n > 0 {
        assert(n * step == step + (n - 1) * step) by (nonlinear_arith);
        assert((n - 1) * step >= 0) by (nonlinear_arith)
            requires
                n >= 1,
                step > 0,
        ;
        lemma_occurs(val, data, step, i + step, n - 1);
    } else {
        assert(n * step == 0) by (nonlinear_arith)
            requires
                n == 0,
        ;
    }
}

/// Where a value that occurs stands.
proof fn lemma_occurs_at(val: Seq<u8>, data: Seq<u8>, step: int, i: int) -> (n: int)
    requires
        occurs_from(val, data, step, i),
    ensures
        0 <= n,
        i + n * step + val.len() <= data.len(),
        data.subrange(i + n * step, i + n * step + val.len()) == val,
    decreases data.len() + step - i,
{
    if data.subrange(i, i + val.len()) == val {
        assert(0 * step == 0) by (nonlinear_arith);
        0
    } else {
        let n = lemma_occurs_at(val, data, step, i + step);
        assert((n + 1) * step == n * step + step) by (nonlinear_arith);
        n + 1
    }
}

/// Whether a value stands in data at so many times a step.
pub open spec fn stands_at(val: Seq<u8>, data: Seq<u8>, step: int, n: int) -> bool {
    n * step + val.len() <= data.len() && data.subrange(n * step, n * step + val.len()) == val
}

/// Data matches an option whose value is a string where the value stands in it, anywhere; an option whose value is neither a
/// string nor hexadecimal where the value stands in it at a multiple of its length; and an option without a value always.
pub proof fn law_value_is_found(opt: DhcpOpt, data: Seq<u8>, v: Seq<u8>)
    requires
        opt.val matches Some(x) ==> x@ == v,
        !opt.flags.hex,
    ensures
        opt.val is None || v.len() == 0 ==> option_matches(opt, data),
        opt.val is Some && v.len() > 0 && opt.flags.string ==> (option_matches(opt, data) <==> exists|n: int|
            n >= 0 && #[trigger] stands_at(v, data, 1, n)),
        opt.val is Some && v.len() > 0 && !opt.flags.string ==> (option_matches(opt, data) <==> exists|n: int|
            n >= 0 && #[trigger] stands_at(v, data, v.len() as int, n)),
{
    if opt.val is Some && v.len() > 0 {
        let step = if opt.flags.string {
            1
        } else {
            v.len() as int
        };
        if option_matches(opt, data) {
            let n = lemma_occurs_at(v, data, step, 0);
            assert(stands_at(v, data, step, n));
        }
        if exists|n: int| n >= 0 && #[trigger] stands_at(v, data, step, n) {
            let n = choose|n: int| n >= 0 && #[trigger] stands_at(v, data, step, n);
            assert(n * step >= 0) by (nonlinear_arith)
                requires
                    n >= 0,
                    step > 0,
            ;
            lemma_occurs(v, data, step, 0, n);
        }
    }
}

} // verus!
