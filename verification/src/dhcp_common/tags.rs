//! Network tags, and which options they select.

use crate::dhcp_types::{clone_netids, has_tag, nets, DhcpNetid, DhcpOpt, DhOptFlags};
use crate::text::{join_strings, join_with, same_bytes, to_chars, views};
use crate::util::{masked_equal, match_masked};
use vstd::prelude::*;
use vstd::slice::slice_subrange;

verus! {

/// Whether two lists have a tag in common.
pub open spec fn share_tag(tags: Seq<Seq<char>>, list: Seq<Seq<char>>) -> bool {
    exists|i: int| 0 <= i < tags.len() && list.contains(#[trigger] tags[i])
}

/// Whether two lists have a tag in common.
pub fn match_netid(tags: &[DhcpNetid], list: &[DhcpNetid]) -> (r: bool)
    ensures
        r == share_tag(nets(tags@), nets(list@)),
{
    let mut i: usize = 0;
    while i < tags.len()
        invariant
            i <= tags@.len(),
            forall|j: int| 0 <= j < i ==> !nets(list@).contains(#[trigger] nets(tags@)[j]),
        decreases tags@.len() - i,
    {
        if has_tag(list, tags[i].net.as_str()) {
            assert(nets(list@).contains(nets(tags@)[i as int]));
            return true;
        }
        i += 1;
    }
    false
}

/// A rule that sets tags where others are set.
#[derive(Debug, Clone)]
pub struct TagIf {
    /// The tags that are asked for.
    pub tag: Vec<DhcpNetid>,
    /// The tags that are set then.
    pub set: Vec<DhcpNetid>,
}

/// The value of a rule.
pub struct Rule {
    pub tag: Seq<Seq<char>>,
    pub set: Seq<Seq<char>>,
}

impl View for TagIf {
    type V = Rule;

    open spec fn view(&self) -> Rule {
        Rule { tag: nets(self.tag@), set: nets(self.set@) }
    }
}

/// The values of rules.
pub open spec fn rules_of(v: Seq<TagIf>) -> Seq<Rule> {
    v.map_values(|r: TagIf| r@)
}

/// Whether a tag asks for the absence of what follows its first character.
pub open spec fn negated(t: Seq<char>) -> bool {
    t.len() > 0 && (t[0] == '!' || t[0] == '#')
}

/// A tag without the sign of its negation.
pub open spec fn positive(t: Seq<char>) -> Seq<char> {
    if negated(t) {
        t.skip(1)
    } else {
        t
    }
}

/// Whether a pattern matches a name: as a prefix where it ends in a star, else as a whole.
pub open spec fn pattern_matches(pattern: Seq<char>, name: Seq<char>) -> bool {
    if pattern.len() > 0 && pattern.last() == '*' {
        pattern.drop_last().is_prefix_of(name)
    } else {
        pattern == name
    }
}

/// Whether a pattern matches a name of the pool.
pub open spec fn matched_in(pattern: Seq<char>, pool: Seq<Seq<char>>) -> bool {
    exists|i: int| 0 <= i < pool.len() && pattern_matches(pattern, #[trigger] pool[i])
}

/// Whether the pool gives a tag what it asks for.
pub open spec fn satisfied(t: Seq<char>, pool: Seq<Seq<char>>) -> bool {
    matched_in(positive(t), pool) != negated(t)
}

/// Whether the pool gives every tag what it asks for.
pub open spec fn all_satisfied(check: Seq<Seq<char>>, pool: Seq<Seq<char>>) -> bool {
    forall|i: int| 0 <= i < check.len() ==> satisfied(#[trigger] check[i], pool)
}

/// Whether the pattern `tag[from..]` matches a name.
fn matches_name(tag: &Vec<char>, from: usize, name: &str) -> (r: bool)
    requires
        from <= tag@.len(),
    ensures
        r == pattern_matches(tag@.skip(from as int), name@),
{
    let ghost pattern = tag@.skip(from as int);
    let chars: Vec<char> = to_chars(name);
    let n: usize = tag.len() - from;
    let wild: bool = n > 0 && tag[tag.len() - 1] == '*';
    let fixed: usize = if wild {
        n - 1
    } else {
        n
    };
    if chars.len() < fixed || (!wild && chars.len() != fixed) {
        return false;
    }
    let mut i: usize = 0;
    while i < fixed
        invariant
            i <= fixed <= chars@.len(),
            chars@ == name@,
            from + n == tag.len(),
            n == pattern.len(),
            fixed == (if wild {
                n - 1
            } else {
                n as int
            }),
            wild == (n > 0 && pattern.last() == '*'),
            pattern == tag@.skip(from as int),
            !wild ==> chars@.len() == fixed,
            forall|j: int| 0 <= j < i ==> #[trigger] pattern[j] == name@[j],
        decreases fixed - i,
    {
        if tag[from + i] != chars[i] {
            assert(pattern[i as int] != name@[i as int]);
            proof {
                if wild {
                    assert(pattern.drop_last()[i as int] != name@[i as int]);
                }
            }
            return false;
        }
        i += 1;
    }
    proof {
        if wild {
            assert(pattern.drop_last() =~= name@.take(fixed as int));
        } else {
            assert(pattern =~= name@);
        }
    }
    true
}

/// Whether every tag of `check` gets what it asks for of `pool`. A tag that ends in a star matches every
/// name that starts like it; one that starts with `!` or `#` asks that nothing matches.
pub fn match_netid_wild(check: &[DhcpNetid], pool: &[DhcpNetid]) -> (r: bool)
    ensures
        r == all_satisfied(nets(check@), nets(pool@)),
{
    let mut i: usize = 0;
    while i < check.len()
        invariant
            i <= check@.len(),
            forall|j: int| 0 <= j < i ==> satisfied(#[trigger] nets(check@)[j], nets(pool@)),
        decreases check@.len() - i,
    {
        let tag: Vec<char> = to_chars(check[i].net.as_str());
        assert(tag@ == nets(check@)[i as int]);
        let negative: bool = tag.len() > 0 && (tag[0] == '!' || tag[0] == '#');
        let from: usize = if negative {
            1
        } else {
            0
        };
        assert(tag@.skip(from as int) =~= positive(tag@));
        let mut found: bool = false;
        let mut k: usize = 0;
        while k < pool.len() && !found
            invariant
                k <= pool@.len(),
                from <= tag@.len(),
                tag@.skip(from as int) == positive(tag@),
                found ==> matched_in(positive(tag@), nets(pool@)),
                !found ==> forall|j: int| 0 <= j < k ==> !pattern_matches(positive(tag@), #[trigger] nets(pool@)[j]),
            decreases pool@.len() - k, (if found {
                0int
            } else {
                1
            }),
        {
            if matches_name(&tag, from, pool[k].net.as_str()) {
                assert(pattern_matches(positive(tag@), nets(pool@)[k as int]));
                found = true;
            } else {
                k += 1;
            }
        }
        if found == negative {
            assert(!satisfied(nets(check@)[i as int], nets(pool@)));
            return false;
        }
        i += 1;
    }
    true
}

/// `tags` with those of `new` that it does not hold yet.
pub open spec fn with_missing(tags: Seq<Seq<char>>, new: Seq<Seq<char>>) -> Seq<Seq<char>>
    decreases new.len(),
{
    if new.len() == 0 {
        tags
    } else {
        let so_far = with_missing(tags, new.drop_last());
        if so_far.contains(new.last()) {
            so_far
        } else {
            so_far.push(new.last())
        }
    }
}

/// The tags after every rule, in order, has set its tags where it applies.
pub open spec fn after_rules(tags: Seq<Seq<char>>, rules: Seq<Rule>) -> Seq<Seq<char>>
    decreases rules.len(),
{
    if rules.len() == 0 {
        tags
    } else {
        let so_far = after_rules(tags, rules.drop_last());
        if all_satisfied(rules.last().tag, so_far) {
            with_missing(so_far, rules.last().set)
        } else {
            so_far
        }
    }
}

/// Adds the tags of `new` that are missing.
fn add_missing(tags: &mut Vec<DhcpNetid>, new: &Vec<DhcpNetid>)
    ensures
        nets(final(tags)@) == with_missing(nets(old(tags)@), nets(new@)),
{
    let ghost start = nets(tags@);
    let ghost all = nets(new@);
    let mut i: usize = 0;
    assert(all.take(0) =~= Seq::<Seq<char>>::empty());
    while i < new.len()
        invariant
            i <= new@.len(),
            all == nets(new@),
            nets(tags@) == with_missing(start, all.take(i as int)),
        decreases new@.len() - i,
    {
        proof {
            assert(all.take(i + 1).drop_last() =~= all.take(i as int));
            assert(all.take(i + 1).last() == new@[i as int]@);
        }
        if !has_tag(tags.as_slice(), new[i].net.as_str()) {
            let t: DhcpNetid = new[i].clone();
            assert(nets(tags@.push(t)) =~= nets(tags@).push(t@));
            tags.push(t);
        }
        i += 1;
    }
    assert(all.take(all.len() as int) =~= all);
}

/// Applies the rules in order: each whose tags are satisfied by those set so far sets its own.
pub fn run_tag_if(tags: Vec<DhcpNetid>, rules: &[TagIf]) -> (r: Vec<DhcpNetid>)
    ensures
        nets(r@) == after_rules(nets(tags@), rules_of(rules@)),
{
    let ghost start = nets(tags@);
    let ghost all = rules_of(rules@);
    let mut result: Vec<DhcpNetid> = tags;
    let mut i: usize = 0;
    assert(all.take(0) =~= Seq::<Rule>::empty());
    while i < rules.len()
        invariant
            i <= rules@.len(),
            all == rules_of(rules@),
            nets(result@) == after_rules(start, all.take(i as int)),
        decreases rules@.len() - i,
    {
        proof {
            assert(all.take(i + 1).drop_last() =~= all.take(i as int));
            assert(all.take(i + 1).last() == rules@[i as int]@);
        }
        if match_netid_wild(rules[i].tag.as_slice(), result.as_slice()) {
            add_missing(&mut result, &rules[i].set);
        }
        i += 1;
    }
    assert(all.take(all.len() as int) =~= all);
    result
}

/// Setting tags keeps those before, in their places, and sets no tag twice.
proof fn lemma_with_missing(tags: Seq<Seq<char>>, new: Seq<Seq<char>>)
    ensures
        tags.is_prefix_of(with_missing(tags, new)),
        tags.no_duplicates() ==> with_missing(tags, new).no_duplicates(),
        forall|t: Seq<char>| #[trigger] new.contains(t) ==> with_missing(tags, new).contains(t),
    decreases new.len(),
{
    if new.len() > 0 {
        lemma_with_missing(tags, new.drop_last());
        let so_far = with_missing(tags, new.drop_last());
        let all = with_missing(tags, new);
        assert(tags =~= all.take(tags.len() as int));
        assert forall|t: Seq<char>| #[trigger] new.contains(t) implies all.contains(t) by {
            if t == new.last() {
                if !so_far.contains(t) {
                    assert(all[so_far.len() as int] == t);
                }
            } else {
                let i = choose|i: int| 0 <= i < new.len() && new[i] == t;
                assert(new.drop_last()[i] == t);
                assert(new.drop_last().contains(t));
                let j = choose|j: int| 0 <= j < so_far.len() && so_far[j] == t;
                assert(all[j] == t);
            }
        }
    }
}

/// The rules keep the tags that were set, in their places, and set no tag twice.
pub proof fn law_rules_keep_tags(tags: Seq<Seq<char>>, rules: Seq<Rule>)
    ensures
        tags.is_prefix_of(after_rules(tags, rules)),
        tags.no_duplicates() ==> after_rules(tags, rules).no_duplicates(),
    decreases rules.len(),
{
    if rules.len() > 0 {
        law_rules_keep_tags(tags, rules.drop_last());
        let so_far = after_rules(tags, rules.drop_last());
        lemma_with_missing(so_far, rules.last().set);
        let all = after_rules(tags, rules);
        assert(so_far.is_prefix_of(all));
        assert(tags =~= all.take(tags.len() as int));
    }
}

/// A rule whose tags are satisfied sets every one of its tags.
pub proof fn law_rule_sets_tags(tags: Seq<Seq<char>>, rule: Rule, t: Seq<char>)
    requires
        all_satisfied(rule.tag, tags),
        rule.set.contains(t),
    ensures
        after_rules(tags, seq![rule]).contains(t),
{
    let rules = seq![rule];
    reveal_with_fuel(after_rules, 2);
    assert(rules.drop_last() =~= Seq::<Rule>::empty());
    lemma_with_missing(tags, rule.set);
}

/// Whether an option goes with the PXE mode: 0 leaves out what is for PXE only, 2 leaves out all else.
pub open spec fn pxe_allows(flags: DhOptFlags, pxemode: u8) -> bool {
    if flags.pxe_opt {
        pxemode != 0
    } else {
        pxemode != 2
    }
}

/// Whether an option goes with the PXE mode.
pub fn pxe_ok(opt: &DhcpOpt, pxemode: u8) -> (r: bool)
    ensures
        r == pxe_allows(opt.flags, pxemode),
{
    if opt.flags.pxe_opt {
        pxemode != 0
    } else {
        pxemode != 2
    }
}

/// Whether an option is sent inside another one.
pub open spec fn encapsulated(flags: DhOptFlags) -> bool {
    flags.encapsulate || flags.vendor || flags.rfc3925
}

/// Whether an option has tags and they are satisfied, and it can be sent in this mode.
pub open spec fn tag_selected(o: DhcpOpt, tags: Seq<Seq<char>>, pxemode: u8) -> bool {
    !encapsulated(o.flags) && o.netid@.len() > 0 && all_satisfied(nets(o.netid@), tags) && pxe_allows(o.flags, pxemode)
}

/// What selects options: the tags of the client, and those with the tags of its address range.
pub struct Selection {
    pub tags: Seq<Seq<char>>,
    pub with_context: Option<Seq<Seq<char>>>,
    pub pxemode: u8,
}

/// Whether option `i` is selected by the client's tags, and still is with those of the range.
pub open spec fn by_client(opts: Seq<DhcpOpt>, i: int, sel: Selection) -> bool {
    tag_selected(opts[i], sel.tags, sel.pxemode) && match sel.with_context {
        Some(c) => all_satisfied(nets(opts[i].netid@), c),
        None => true,
    }
}

/// Whether the client's tags select an option with this code.
pub open spec fn client_has_code(opts: Seq<DhcpOpt>, code: i32, sel: Selection) -> bool {
    exists|j: int| 0 <= j < opts.len() && (#[trigger] opts[j]).opt == code && by_client(opts, j, sel)
}

/// Whether option `i` is selected by tags: the client's, or those with the range's where the client's
/// select no option with the same code.
pub open spec fn by_tags(opts: Seq<DhcpOpt>, i: int, sel: Selection) -> bool {
    by_client(opts, i, sel) || match sel.with_context {
        Some(c) => tag_selected(opts[i], c, sel.pxemode) && !client_has_code(opts, opts[i].opt, sel),
        None => false,
    }
}

/// Whether tags select an option with this code.
pub open spec fn tags_have_code(opts: Seq<DhcpOpt>, code: i32, sel: Selection) -> bool {
    exists|j: int| 0 <= j < opts.len() && (#[trigger] opts[j]).opt == code && by_tags(opts, j, sel)
}

/// Whether option `i` is selected: by tags, or because it has none and no option with the same code is
/// selected by tags.
pub open spec fn selected(opts: Seq<DhcpOpt>, i: int, sel: Selection) -> bool {
    by_tags(opts, i, sel) || (!encapsulated(opts[i].flags) && opts[i].netid@.len() == 0 && pxe_allows(
        opts[i].flags,
        sel.pxemode,
    ) && !tags_have_code(opts, opts[i].opt, sel))
}

/// Whether option `i` is sent: it is the first with its code that is selected.
pub open spec fn sent(opts: Seq<DhcpOpt>, i: int, sel: Selection) -> bool {
    selected(opts, i, sel) && forall|j: int| 0 <= j < i && selected(opts, j, sel) ==> (#[trigger] opts[j]).opt != opts[i].opt
}

/// Whether an option with this code is marked among the first `n`.
fn marked_code(opts: &Vec<DhcpOpt>, marks: &Vec<bool>, n: usize, code: i32) -> (r: bool)
    requires
        n <= opts@.len() == marks@.len(),
    ensures
        r == exists|j: int| 0 <= j < n && (#[trigger] opts@[j]).opt == code && marks@[j],
{
    let mut j: usize = 0;
    while j < n
        invariant
            j <= n <= opts@.len() == marks@.len(),
            forall|k: int| 0 <= k < j ==> !((#[trigger] opts@[k]).opt == code && marks@[k]),
        decreases n - j,
    {
        if opts[j].opt == code && marks[j] {
            assert(opts@[j as int].opt == code && marks@[j as int]);
            return true;
        }
        j += 1;
    }
    false
}

/// Whether an option has tags and they are satisfied, and it can be sent in this mode.
fn is_tag_selected(o: &DhcpOpt, tags: &Vec<DhcpNetid>, pxemode: u8) -> (r: bool)
    ensures
        r == tag_selected(*o, nets(tags@), pxemode),
{
    !(o.flags.encapsulate || o.flags.vendor || o.flags.rfc3925) && o.netid.len() > 0 && match_netid_wild(
        o.netid.as_slice(),
        tags.as_slice(),
    ) && pxe_ok(o, pxemode)
}

/// Marks the options that the client's tags select, and still do with those of the range.
fn mark_by_client(opts: &Vec<DhcpOpt>, tags: &Vec<DhcpNetid>, context: &Option<Vec<DhcpNetid>>, pxemode: u8, Ghost(
    sel,
): Ghost<Selection>) -> (marks: Vec<bool>)
    requires
        sel == selection(nets(tags@), *context, pxemode),
    ensures
        marks@.len() == opts@.len(),
        forall|i: int| 0 <= i < opts@.len() ==> #[trigger] marks@[i] == by_client(opts@, i, sel),
{
    let mut marks: Vec<bool> = Vec::new();
    let mut i: usize = 0;
    while i < opts.len()
        invariant
            i <= opts@.len(),
            marks@.len() == i,
            sel == selection(nets(tags@), *context, pxemode),
            forall|j: int| 0 <= j < i ==> #[trigger] marks@[j] == by_client(opts@, j, sel),
        decreases opts@.len() - i,
    {
        let first: bool = is_tag_selected(&opts[i], tags, pxemode);
        let still: bool = match context {
            Some(c) => match_netid_wild(opts[i].netid.as_slice(), c.as_slice()),
            None => true,
        };
        marks.push(first && still);
        i += 1;
    }
    marks
}

/// What selects options.
pub open spec fn selection(tags: Seq<Seq<char>>, context: Option<Vec<DhcpNetid>>, pxemode: u8) -> Selection {
    Selection {
        tags,
        with_context: match context {
            Some(c) => Some(nets(c@)),
            None => None,
        },
        pxemode,
    }
}

/// Marks the options that tags select.
fn mark_by_tags(
    opts: &Vec<DhcpOpt>,
    client: &Vec<bool>,
    context: &Option<Vec<DhcpNetid>>,
    pxemode: u8,
    Ghost(sel): Ghost<Selection>,
) -> (marks: Vec<bool>)
    requires
        sel == selection(sel.tags, *context, pxemode),
        client@.len() == opts@.len(),
        forall|i: int| 0 <= i < opts@.len() ==> #[trigger] client@[i] == by_client(opts@, i, sel),
    ensures
        marks@.len() == opts@.len(),
        forall|i: int| 0 <= i < opts@.len() ==> #[trigger] marks@[i] == by_tags(opts@, i, sel),
{
    let mut marks: Vec<bool> = Vec::new();
    let mut i: usize = 0;
    while i < opts.len()
        invariant
            i <= opts@.len(),
            marks@.len() == i,
            sel == selection(sel.tags, *context, pxemode),
            client@.len() == opts@.len(),
            forall|i: int| 0 <= i < opts@.len() ==> #[trigger] client@[i] == by_client(opts@, i, sel),
            forall|j: int| 0 <= j < i ==> #[trigger] marks@[j] == by_tags(opts@, j, sel),
        decreases opts@.len() - i,
    {
        let taken: bool = marked_code(opts, client, opts.len(), opts[i].opt);
        proof {
            if taken {
                let j = choose|j: int|
                    0 <= j < opts@.len() && (#[trigger] opts@[j]).opt == opts@[i as int].opt && client@[j];
                assert(client@[j] == by_client(opts@, j, sel));
            } else if client_has_code(opts@, opts@[i as int].opt, sel) {
                let j = choose|j: int|
                    0 <= j < opts@.len() && (#[trigger] opts@[j]).opt == opts@[i as int].opt && by_client(opts@, j, sel);
                assert(client@[j] == by_client(opts@, j, sel));
            }
            assert(taken == client_has_code(opts@, opts@[i as int].opt, sel));
            assert(client@[i as int] == by_client(opts@, i as int, sel));
        }
        let more: bool = match context {
            Some(c) => is_tag_selected(&opts[i], c, pxemode) && !taken,
            None => false,
        };
        marks.push(client[i] || more);
        i += 1;
    }
    marks
}

/// Marks the options that are selected.
fn mark_selected(opts: &Vec<DhcpOpt>, tagged: &Vec<bool>, pxemode: u8, Ghost(sel): Ghost<Selection>) -> (marks: Vec<bool>)
    requires
        sel.pxemode == pxemode,
        tagged@.len() == opts@.len(),
        forall|i: int| 0 <= i < opts@.len() ==> #[trigger] tagged@[i] == by_tags(opts@, i, sel),
    ensures
        marks@.len() == opts@.len(),
        forall|i: int| 0 <= i < opts@.len() ==> #[trigger] marks@[i] == selected(opts@, i, sel),
{
    let mut marks: Vec<bool> = Vec::new();
    let mut i: usize = 0;
    while i < opts.len()
        invariant
            i <= opts@.len(),
            marks@.len() == i,
            sel.pxemode == pxemode,
            tagged@.len() == opts@.len(),
            forall|i: int| 0 <= i < opts@.len() ==> #[trigger] tagged@[i] == by_tags(opts@, i, sel),
            forall|j: int| 0 <= j < i ==> #[trigger] marks@[j] == selected(opts@, j, sel),
        decreases opts@.len() - i,
    {
        let taken: bool = marked_code(opts, tagged, opts.len(), opts[i].opt);
        proof {
            if taken {
                let j = choose|j: int|
                    0 <= j < opts@.len() && (#[trigger] opts@[j]).opt == opts@[i as int].opt && tagged@[j];
                assert(tagged@[j] == by_tags(opts@, j, sel));
            } else if tags_have_code(opts@, opts@[i as int].opt, sel) {
                let j = choose|j: int|
                    0 <= j < opts@.len() && (#[trigger] opts@[j]).opt == opts@[i as int].opt && by_tags(opts@, j, sel);
                assert(tagged@[j] == by_tags(opts@, j, sel));
            }
            assert(taken == tags_have_code(opts@, opts@[i as int].opt, sel));
            assert(tagged@[i as int] == by_tags(opts@, i as int, sel));
        }
        let o: &DhcpOpt = &opts[i];
        let plain: bool = !(o.flags.encapsulate || o.flags.vendor || o.flags.rfc3925) && o.netid.len() == 0 && pxe_ok(
            o,
            pxemode,
        ) && !taken;
        marks.push(tagged[i] || plain);
        i += 1;
    }
    marks
}

/// The tags that select options: those of the client after the rules, and those of the range together
/// with these, after the rules again.
pub open spec fn selection_of(
    tags: Seq<Seq<char>>,
    context_tags: Option<Vec<DhcpNetid>>,
    pxemode: u8,
    rules: Seq<Rule>,
) -> Selection {
    let own = after_rules(tags, rules);
    Selection {
        tags: own,
        with_context: match context_tags {
            Some(c) => Some(after_rules(nets(c@) + own, rules)),
            None => None,
        },
        pxemode,
    }
}

/// Marks the options that are to be sent to a client with these tags, and clears the mark of all others.
/// Gives the client's tags after the rules.
pub fn option_filter(
    tags: Vec<DhcpNetid>,
    context_tags: Option<Vec<DhcpNetid>>,
    opts: &mut Vec<DhcpOpt>,
    pxemode: u8,
    tag_rules: &[TagIf],
) -> (r: Vec<DhcpNetid>)
    ensures
        nets(r@) == after_rules(nets(tags@), rules_of(tag_rules@)),
        final(opts)@.len() == old(opts)@.len(),
        forall|i: int|
            0 <= i < old(opts)@.len() ==> #[trigger] final(opts)@[i] == (DhcpOpt {
                flags: DhOptFlags {
                    tagok: sent(old(opts)@, i, selection_of(nets(tags@), context_tags, pxemode, rules_of(tag_rules@))),
                    ..old(opts)@[i].flags
                },
                ..old(opts)@[i]
            }),
{
    let ghost sel = selection_of(nets(tags@), context_tags, pxemode, rules_of(tag_rules@));
    let own: Vec<DhcpNetid> = run_tag_if(tags, tag_rules);
    let context: Option<Vec<DhcpNetid>> = match context_tags {
        Some(c) => {
            let mut all: Vec<DhcpNetid> = c;
            let mut copy: Vec<DhcpNetid> = clone_netids(&own);
            let ghost before = all@;
            let ghost added = copy@;
            all.append(&mut copy);
            assert(nets(before + added) =~= nets(before) + nets(added));
            Some(run_tag_if(all, tag_rules))
        },
        None => None,
    };
    assert(sel == selection(nets(own@), context, pxemode));
    let client: Vec<bool> = mark_by_client(opts, &own, &context, pxemode, Ghost(sel));
    let tagged: Vec<bool> = mark_by_tags(opts, &client, &context, pxemode, Ghost(sel));
    let marks: Vec<bool> = mark_selected(opts, &tagged, pxemode, Ghost(sel));
    let ghost all = opts@;
    let mut i: usize = 0;
    while i < opts.len()
        invariant
            i <= opts@.len(),
            opts@.len() == all.len(),
            all == old(opts)@,
            marks@.len() == all.len(),
            forall|j: int| 0 <= j < all.len() ==> #[trigger] marks@[j] == selected(all, j, sel),
            forall|j: int| i <= j < all.len() ==> #[trigger] opts@[j] == all[j],
            forall|j: int| 0 <= j < all.len() ==> (#[trigger] opts@[j]).opt == all[j].opt,
            forall|j: int|
                0 <= j < i ==> #[trigger] opts@[j] == (DhcpOpt {
                    flags: DhOptFlags { tagok: sent(all, j, sel), ..all[j].flags },
                    ..all[j]
                }),
        decreases opts@.len() - i,
    {
        let earlier: bool = marked_code(opts, &marks, i, opts[i].opt);
        let ok: bool = marks[i] && !earlier;
        proof {
            if earlier {
                let j = choose|j: int| 0 <= j < i && (#[trigger] opts@[j]).opt == opts@[i as int].opt && marks@[j];
                assert(all[j].opt == all[i as int].opt);
            } else {
                assert forall|j: int| 0 <= j < i && selected(all, j, sel) implies (#[trigger] all[j]).opt
                    != all[i as int].opt by {
                    assert(opts@[j].opt == all[j].opt);
                    assert(marks@[j] == selected(all, j, sel));
                }
            }
            assert(ok == sent(all, i as int, sel));
        }
        let mut flags: DhOptFlags = opts[i].flags;
        flags.tagok = ok;
        opts[i].flags = flags;
        i += 1;
    }
    own
}

/// Of the options with one code at most one is sent, no option is sent that goes inside another one or
/// that the PXE mode leaves out, and one whose tags are not satisfied by the tags in force is not sent.
pub proof fn law_sent_options(opts: Seq<DhcpOpt>, i: int, j: int, sel: Selection)
    requires
        0 <= i < opts.len(),
        0 <= j < opts.len(),
        sent(opts, i, sel),
    ensures
        sent(opts, j, sel) && opts[i].opt == opts[j].opt ==> i == j,
        !encapsulated(opts[i].flags),
        pxe_allows(opts[i].flags, sel.pxemode),
        opts[i].netid@.len() > 0 ==> all_satisfied(
            nets(opts[i].netid@),
            match sel.with_context {
                Some(c) => c,
                None => sel.tags,
            },
        ),
{
}

/// Splits a string at the first `c`.
///
/// Calls `str::split_once`: there is a result exactly where the character occurs, and then the parts are
/// what stands before its first occurrence and what stands after it.
#[verifier::external_body]
fn split_once_at(s: &str, c: char) -> (r: Option<(&str, &str)>)
    ensures
        r is Some <==> s@.contains(c),
        r matches Some((a, b)) ==> s@ == a@.push(c) + b@ && !a@.contains(c),
{
    s.split_once(c)
}

/// Splits a host name at its first dot. There is no domain where there is no dot or nothing after it.
pub fn strip_hostname(hostname: &str) -> (r: (&str, Option<&str>))
    ensures
        !hostname@.contains('.') ==> r.0@ == hostname@ && r.1 is None,
        hostname@.contains('.') ==> {
            &&& !r.0@.contains('.')
            &&& r.1 matches Some(d) ==> d@.len() > 0 && hostname@ == r.0@.push('.') + d@
            &&& r.1 is None ==> hostname@ == r.0@.push('.')
        },
{
    match split_once_at(hostname, '.') {
        None => (hostname, None),
        Some((name, domain)) => {
            let rest: Vec<char> = to_chars(domain);
            if rest.len() == 0 {
                assert(name@.push('.') + domain@ =~= name@.push('.'));
                (name, None)
            } else {
                (name, Some(domain))
            }
        },
    }
}

/// The items without those that occurred before.
pub open spec fn distinct(s: Seq<Seq<char>>) -> Seq<Seq<char>>
    decreases s.len(),
{
    if s.len() == 0 {
        seq![]
    } else if s.drop_last().contains(s.last()) {
        distinct(s.drop_last())
    } else {
        distinct(s.drop_last()).push(s.last())
    }
}

/// The tags as a list for the log, each once; nothing where there are none.
pub fn log_tags(netids: &[DhcpNetid]) -> (r: Option<String>)
    ensures
        r is Some <==> netids@.len() > 0,
        r matches Some(t) ==> t@ == join_with(distinct(nets(netids@)), ", "@),
{
    if netids.len() == 0 {
        return None;
    }
    let ghost all = nets(netids@);
    let mut parts: Vec<String> = Vec::new();
    let mut i: usize = 0;
    assert(all.take(0) =~= Seq::<Seq<char>>::empty());
    assert(views(parts@) =~= distinct(all.take(0)));
    while i < netids.len()
        invariant
            i <= netids@.len(),
            all == nets(netids@),
            views(parts@) == distinct(all.take(i as int)),
        decreases netids@.len() - i,
    {
        let ghost before = all.take(i as int);
        proof {
            assert(all.take(i + 1).drop_last() =~= before);
            assert(all.take(i + 1).last() == netids@[i as int]@);
        }
        let seen: &[DhcpNetid] = slice_subrange(netids, 0, i);
        assert(nets(seen@) =~= before);
        if !has_tag(seen, netids[i].net.as_str()) {
            let t: String = netids[i].net.clone();
            assert(views(parts@.push(t)) =~= views(parts@).push(t@));
            parts.push(t);
        }
        i += 1;
    }
    assert(all.take(all.len() as int) =~= all);
    Some(join_strings(&parts, ", "))
}

/// Whether `val` stands in `data` at position `i` or some steps later.
pub open spec fn occurs_from(val: Seq<u8>, data: Seq<u8>, step: int, i: int) -> bool
    decreases data.len() + step - i,
{
    step > 0 && 0 <= i && i + val.len() <= data.len() && (data.subrange(i, i + val.len()) == val || occurs_from(
        val,
        data,
        step,
        i + step,
    ))
}

/// Whether data matches an option: an option without a value matches anything; hexadecimal values are
/// compared at the start, their last 32 bytes being free; others are looked for, at every place where the
/// value is a string and else at multiples of its length.
pub open spec fn option_matches(opt: DhcpOpt, data: Seq<u8>) -> bool {
    match opt.val {
        None => true,
        Some(v) => if v@.len() == 0 {
            true
        } else if v@.len() > data.len() {
            false
        } else if opt.flags.hex {
            masked_equal(v@, data, 0xffff_ffff)
        } else {
            occurs_from(
                v@,
                data,
                if opt.flags.string {
                    1
                } else {
                    v@.len() as int
                },
                0,
            )
        },
    }
}

/// Whether data matches an option.
pub fn match_bytes(opt: &DhcpOpt, data: &[u8]) -> (r: bool)
    requires
        data@.len() < usize::MAX,
    ensures
        r == option_matches(*opt, data@),
{
    match &opt.val {
        None => true,
        Some(val) => {
            if val.len() == 0 {
                return true;
            }
            if val.len() > data.len() {
                return false;
            }
            if opt.flags.hex {
                return match_masked(val.as_slice(), data, 0xffff_ffff) != 0;
            }
            let step: usize = if opt.flags.string {
                1
            } else {
                val.len()
            };
            let mut i: usize = 0;
            while data.len() - i >= val.len()
                invariant
                    i <= data@.len(),
                    1 <= step <= val@.len() <= data@.len(),
                    opt.val == Some(*val),
                    !opt.flags.hex,
                    step == (if opt.flags.string {
                        1int
                    } else {
                        val@.len() as int
                    }),
                    occurs_from(val@, data@, step as int, 0) == occurs_from(val@, data@, step as int, i as int),
                decreases data@.len() - i,
            {
                if same_bytes(slice_subrange(data, i, i + val.len()), val.as_slice()) {
                    return true;
                }
                i += step;
            }
            false
        },
    }
}

} // verus!
