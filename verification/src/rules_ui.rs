//! The dialog in which the sorting rules of a fence are edited: a sentence
//! "Move files that ... into this fence" with a choice and, for some choices,
//! a text.

use vstd::prelude::*;
use crate::config::{fence_at, fence_index, rule_views, Config, ConfigView, FenceView};
use crate::input::{command_code, command_id, low_word};
use crate::list::{first_index, lemma_first_index, lemma_is_first, lemma_is_nowhere};
use crate::menu::CBN_SELCHANGE;
use crate::rules::{same_rule, Rule, RuleKind, RuleView};
use crate::text::{
    fold_case, folded, texts, trim, trim_leading, trimmed, without_leading,
};

verus! {

broadcast use crate::text::lemma_texts_push;

/// The choices of the dialog.
pub open spec fn option_labels() -> Seq<Seq<char>> {
    seq![
        "are pictures"@,
        "are documents"@,
        "are apps or shortcuts"@,
        "are folders"@,
        "are videos or music"@,
        "have a name containing…"@,
        "have the file type…"@,
    ]
}

/// The categories of the first choices.
pub open spec fn option_categories() -> Seq<Seq<char>> {
    seq!["pictures"@, "documents"@, "apps"@, "folders"@, "media"@]
}

/// The choices of the dialog.
pub fn labels() -> (r: Vec<String>)
    ensures
        texts(r@) == option_labels(),
{
    let mut v: Vec<String> = Vec::new();
    v.push("are pictures".to_owned());
    v.push("are documents".to_owned());
    v.push("are apps or shortcuts".to_owned());
    v.push("are folders".to_owned());
    v.push("are videos or music".to_owned());
    v.push("have a name containing…".to_owned());
    v.push("have the file type…".to_owned());
    assert(texts(v@) =~= option_labels());
    v
}

fn categories() -> (r: Vec<String>)
    ensures
        texts(r@) == option_categories(),
        r@.len() == 5,
{
    let mut v: Vec<String> = Vec::new();
    v.push("pictures".to_owned());
    v.push("documents".to_owned());
    v.push("apps".to_owned());
    v.push("folders".to_owned());
    v.push("media".to_owned());
    assert(texts(v@) =~= option_categories());
    v
}

/// A rule as the dialog's list shows it.
pub open spec fn rule_label(rule: RuleView) -> Seq<char> {
    match rule.kind {
        RuleKind::Category => match option_categories().index_of_first(rule.value) {
            Some(i) => option_labels()[i],
            None => rule.value,
        },
        RuleKind::NameContains => "have a name containing \""@ + rule.value + "\""@,
        RuleKind::Extension => "have the file type \""@ + rule.value + "\""@,
    }
}

/// A rule as the dialog's list shows it.
pub fn label_for_rule(rule: &Rule) -> (r: String)
    ensures
        r@ == rule_label(rule@),
{
    match rule.kind {
        RuleKind::Category => {
            let all = categories();
            proof {
                option_categories().index_of_first_ensures(rule.value@);
                assert(option_labels().len() == 7);
                assert(option_categories().len() == 5);
            }
            match crate::list::position(&all, &rule.value) {
                Some(i) => {
                    let names = labels();
                    assert(texts(names@).len() == names@.len());
                    assert(texts(names@)[i as int] == names@[i as int]@);
                    names[i].clone()
                },
                None => rule.value.clone(),
            }
        },
        RuleKind::NameContains => {
            let mut s = "have a name containing \"".to_owned();
            s.append(&rule.value);
            s.append("\"");
            s
        },
        RuleKind::Extension => {
            let mut s = "have the file type \"".to_owned();
            s.append(&rule.value);
            s.append("\"");
            s
        },
    }
}

/// The rules of a fence as the dialog's list shows them.
pub open spec fn labels_of(fences: Seq<FenceView>, id: Seq<char>) -> Seq<Seq<char>> {
    match fence_at(fences, id) {
        Some(i) => Seq::new(fences[i].rules.len(), |k: int| rule_label(fences[i].rules[k])),
        None => Seq::empty(),
    }
}

/// The rules of a fence as the dialog's list shows them.
pub fn rule_labels(cfg: &Config, id: &str) -> (r: Vec<String>)
    ensures
        texts(r@) == labels_of(cfg@.fences, id@),
{
    let mut out: Vec<String> = Vec::new();
    match fence_index(cfg, id) {
        Some(i) => {
            let ghost want = labels_of(cfg@.fences, id@);
            let mut k: usize = 0;
            while k < cfg.fences[i].rules.len()
                invariant
                    i < cfg.fences@.len(),
                    want.len() == cfg.fences@[i as int].rules@.len(),
                    forall|j: int|
                        0 <= j < want.len() ==> #[trigger] want[j] == rule_label(
                            cfg.fences@[i as int].rules@[j]@,
                        ),
                    k <= want.len(),
                    out@.len() == k,
                    forall|j: int| 0 <= j < k ==> (#[trigger] out@[j])@ == want[j],
                decreases want.len() - k,
            {
                out.push(label_for_rule(&cfg.fences[i].rules[k]));
                k = k + 1;
            }
            assert(texts(out@) =~= want);
        },
        None => {
            assert(texts(out@) =~= Seq::<Seq<char>>::empty());
        },
    }
    out
}

/// The rule that a choice and an entered text make. A file type is kept in
/// lower case and without the dots it may begin with. No choice, no text or
/// no type make no rule.
pub open spec fn entered_rule(choice: int, entered: Seq<char>) -> Option<RuleView> {
    let text = trimmed(entered);
    if choice < 0 || choice >= 7 {
        None
    } else if choice <= 4 {
        Some(RuleView { kind: RuleKind::Category, value: option_categories()[choice] })
    } else if text.len() == 0 {
        None
    } else if choice == 5 {
        Some(RuleView { kind: RuleKind::NameContains, value: text })
    } else if folded(without_leading(text, '.')).len() == 0 {
        None
    } else {
        Some(RuleView { kind: RuleKind::Extension, value: folded(without_leading(text, '.')) })
    }
}

pub open spec fn opt_rule(r: Option<Rule>) -> Option<RuleView> {
    match r {
        Some(r) => Some(r@),
        None => None,
    }
}

/// The rule that the dialog's choice and text make.
pub fn rule_from_ui(choice: i64, entered: &str) -> (r: Option<Rule>)
    ensures
        opt_rule(r) == entered_rule(choice as int, entered@),
{
    if choice < 0 || choice >= 7 {
        return None;
    }
    if choice <= 4 {
        let all = categories();
        let i = choice as usize;
        assert(texts(all@)[i as int] == all@[i as int]@);
        return Some(Rule { kind: RuleKind::Category, value: all[i].clone() });
    }
    let text = trim(entered);
    if text.as_str().is_empty() {
        return None;
    }
    if choice == 5 {
        return Some(Rule { kind: RuleKind::NameContains, value: text });
    }
    let value = fold_case(&trim_leading(&text, '.'));
    if value.as_str().is_empty() {
        return None;
    }
    Some(Rule { kind: RuleKind::Extension, value })
}

/// Whether a list of rules has this one.
pub open spec fn has_rule(rules: Seq<RuleView>, rule: RuleView) -> bool {
    exists|k: int| 0 <= k < rules.len() && same_rule(#[trigger] rules[k], rule)
}

/// Whether a fence has this rule.
pub open spec fn holds_rule(rule: RuleView) -> spec_fn(FenceView) -> bool {
    |f: FenceView| has_rule(f.rules, rule)
}

/// The fence that has a rule already.
pub open spec fn holder_of(fences: Seq<FenceView>, rule: RuleView) -> Option<int> {
    first_index(fences, holds_rule(rule))
}

/// The fences with one more rule on the fence `id`.
pub open spec fn with_rule(fences: Seq<FenceView>, id: Seq<char>, rule: RuleView) -> Seq<
    FenceView,
> {
    match fence_at(fences, id) {
        Some(i) => fences.update(
            i,
            FenceView { rules: fences[i].rules.push(rule), ..fences[i] },
        ),
        None => fences,
    }
}

/// What became of a request to add a rule.
#[derive(Debug)]
pub enum Addition {
    /// The dialog makes no rule.
    Incomplete,
    /// A fence has this rule already; the message names it.
    Taken { message: String },
    Added,
}

/// The message about a rule that a fence has already.
pub open spec fn taken_message(title: Seq<char>) -> Seq<char> {
    "The fence \""@ + title + "\" already has this rule."@
}

fn fence_has_rule(cfg: &Config, i: usize, rule: &Rule) -> (r: bool)
    requires
        i < cfg.fences@.len(),
    ensures
        r == has_rule(cfg@.fences[i as int].rules, rule@),
{
    let ghost rules = cfg@.fences[i as int].rules;
    assert(rules == rule_views(cfg.fences@[i as int].rules@));
    let mut k: usize = 0;
    while k < cfg.fences[i].rules.len()
        invariant
            i < cfg.fences@.len(),
            rules == rule_views(cfg.fences@[i as int].rules@),
            k <= rules.len(),
            forall|j: int| 0 <= j < k ==> !same_rule(#[trigger] rules[j], rule@),
        decreases rules.len() - k,
    {
        if cfg.fences[i].rules[k].same_as(rule) {
            assert(same_rule(rules[k as int], rule@));
            return true;
        }
        k = k + 1;
    }
    false
}

fn holder_index(cfg: &Config, rule: &Rule) -> (r: Option<usize>)
    ensures
        match r {
            Some(i) => holder_of(cfg@.fences, rule@) == Some(i as int) && i < cfg.fences@.len(),
            None => holder_of(cfg@.fences, rule@) is None,
        },
{
    let ghost all = cfg@.fences;
    let mut i: usize = 0;
    while i < cfg.fences.len()
        invariant
            all == cfg@.fences,
            i <= cfg.fences@.len(),
            forall|j: int| 0 <= j < i ==> !holds_rule(rule@)(#[trigger] all[j]),
        decreases cfg.fences@.len() - i,
    {
        if fence_has_rule(cfg, i, rule) {
            proof {
                lemma_is_first(all, holds_rule(rule@), i as int);
            }
            return Some(i);
        }
        i = i + 1;
    }
    proof {
        lemma_is_nowhere(all, holds_rule(rule@));
    }
    None
}

/// Adds the rule that the dialog makes to a fence, unless some fence has it
/// already.
pub fn add_rule(cfg: &mut Config, id: &str, choice: i64, entered: &str) -> (r: Addition)
    ensures
        match entered_rule(choice as int, entered@) {
            None => r is Incomplete && final(cfg)@ == old(cfg)@,
            Some(rule) => match holder_of(old(cfg)@.fences, rule) {
                Some(i) => {
                    &&& r is Taken
                    &&& r->message@ == taken_message(old(cfg)@.fences[i].title)
                    &&& final(cfg)@ == old(cfg)@
                },
                None => r is Added && final(cfg)@ == (ConfigView {
                    fences: with_rule(old(cfg)@.fences, id@, rule),
                    ..old(cfg)@
                }),
            },
        },
{
    let rule = match rule_from_ui(choice, entered) {
        Some(rule) => rule,
        None => {
            return Addition::Incomplete;
        },
    };
    match holder_index(cfg, &rule) {
        Some(i) => {
            let mut message = "The fence \"".to_owned();
            message.append(&cfg.fences[i].title);
            message.append("\" already has this rule.");
            return Addition::Taken { message };
        },
        None => {},
    }
    match fence_index(cfg, id) {
        Some(i) => {
            let ghost before = cfg@.fences;
            let ghost view = rule@;
            cfg.fences[i].rules.push(rule);
            proof {
                let f = before[i as int];
                assert(cfg@.fences[i as int].rules =~= f.rules.push(view));
                assert(cfg@.fences =~= before.update(
                    i as int,
                    FenceView { rules: f.rules.push(view), ..f },
                ));
            }
        },
        None => {},
    }
    Addition::Added
}

/// The fences without the rule at a place of the fence `id`.
pub open spec fn without_rule(fences: Seq<FenceView>, id: Seq<char>, at: int) -> Seq<FenceView> {
    match fence_at(fences, id) {
        Some(i) => if 0 <= at < fences[i].rules.len() {
            fences.update(i, FenceView { rules: fences[i].rules.remove(at), ..fences[i] })
        } else {
            fences
        },
        None => fences,
    }
}

/// Removes the rule that is selected in the dialog's list. Tells whether one
/// was selected, after which the layout is to be saved.
pub fn remove_selected(cfg: &mut Config, id: &str, selected: i64) -> (r: bool)
    ensures
        final(cfg)@ == (ConfigView {
            fences: without_rule(old(cfg)@.fences, id@, selected as int),
            ..old(cfg)@
        }),
        r == (selected >= 0),
{
    if selected < 0 {
        return false;
    }
    match fence_index(cfg, id) {
        Some(i) => {
            let ghost before = cfg@.fences;
            let ghost f = before[i as int];
            let len: usize = cfg.fences[i].rules.len();
            assert(f.rules.len() == len);
            if (selected as u64) < len as u64 {
                let at = selected as usize;
                let _ = cfg.fences[i].rules.remove(at);
                assert(cfg@.fences[i as int].rules =~= f.rules.remove(at as int));
                assert(cfg@.fences =~= before.update(
                    i as int,
                    FenceView { rules: f.rules.remove(at as int), ..f },
                ));
            }
        },
        None => {},
    }
    true
}

/// Whether no rule occurs twice, on one fence or on two.
pub open spec fn rules_are_distinct(fences: Seq<FenceView>) -> bool {
    forall|i: int, k: int, j: int, l: int|
        #![trigger fences[i].rules[k], fences[j].rules[l]]
        0 <= i < fences.len() && 0 <= k < fences[i].rules.len() && 0 <= j < fences.len() && 0 <= l
            < fences[j].rules.len() && same_rule(fences[i].rules[k], fences[j].rules[l]) ==> i == j
            && k == l
}

/// A rule is added only if no fence has it: rules that are distinct stay
/// distinct.
pub proof fn law_rules_stay_distinct(fences: Seq<FenceView>, id: Seq<char>, rule: RuleView)
    requires
        rules_are_distinct(fences),
        holder_of(fences, rule) is None,
    ensures
        rules_are_distinct(with_rule(fences, id, rule)),
{
    lemma_first_index(fences, holds_rule(rule));
    lemma_first_index(fences, crate::config::has_id(id));
    let after = with_rule(fences, id, rule);
    assert forall|j: int, l: int|
        #![trigger fences[j].rules[l]]
        0 <= j < fences.len() && 0 <= l < fences[j].rules.len() implies !same_rule(
        fences[j].rules[l],
        rule,
    ) by {
        assert(!holds_rule(rule)(fences[j]));
    }
    match fence_at(fences, id) {
        Some(n) => {
            assert forall|i: int, k: int, j: int, l: int|
                #![trigger after[i].rules[k], after[j].rules[l]]
                0 <= i < after.len() && 0 <= k < after[i].rules.len() && 0 <= j < after.len() && 0
                    <= l < after[j].rules.len() && same_rule(
                    after[i].rules[k],
                    after[j].rules[l],
                ) implies i == j && k == l by {
                let new = fences[n].rules.len() as int;
                let a_is_new = i == n && k == new;
                let b_is_new = j == n && l == new;
                if !a_is_new {
                    assert(after[i].rules[k] == fences[i].rules[k]);
                }
                if !b_is_new {
                    assert(after[j].rules[l] == fences[j].rules[l]);
                }
            }
        },
        None => {},
    }
}

/// Whether a choice of the dialog takes a text.
pub fn takes_text(choice: i64) -> (r: bool)
    ensures
        r == (choice >= 5),
{
    choice >= 5
}

pub const ID_ADD: u32 = 1;

pub const ID_CANCEL: u32 = 2;

pub const ID_REMOVE: u32 = 3;

pub const ID_COMBO: u32 = 10;

pub const ID_EDIT: u32 = 11;

pub const ID_LIST: u32 = 12;

/// What a control of the dialog asks for.
#[derive(Clone, Copy, PartialEq, Eq, Structural, Debug)]
pub enum RulesCommand {
    Nothing,
    Add,
    Close,
    Remove,
    /// Another choice was made: show or hide the text.
    Choose,
}

/// What a command message of the dialog asks for.
pub fn decode_rules_command(wparam: u64) -> (r: RulesCommand)
    ensures
        r == if low_word(wparam) == ID_ADD {
            RulesCommand::Add
        } else if low_word(wparam) == ID_CANCEL {
            RulesCommand::Close
        } else if low_word(wparam) == ID_REMOVE {
            RulesCommand::Remove
        } else if low_word(wparam) == ID_COMBO && wparam as int / 0x1_0000 % 0x1_0000_0000
            == CBN_SELCHANGE {
            RulesCommand::Choose
        } else {
            RulesCommand::Nothing
        },
{
    let id = command_id(wparam);
    if id == ID_ADD {
        RulesCommand::Add
    } else if id == ID_CANCEL {
        RulesCommand::Close
    } else if id == ID_REMOVE {
        RulesCommand::Remove
    } else if id == ID_COMBO && command_code(wparam) == CBN_SELCHANGE {
        RulesCommand::Choose
    } else {
        RulesCommand::Nothing
    }
}

/// The first five choices stand for a category each, whatever the text holds,
/// and the rule is shown in the words of the choice.
pub proof fn law_choosing_a_category(entered: Seq<char>)
    ensures
        ({
            let r = |i: int| entered_rule(i, entered)->0;
            &&& forall|i: int|
                0 <= i < 5 ==> #[trigger] entered_rule(i, entered) is Some && (entered_rule(
                    i,
                    entered,
                )->0).kind == RuleKind::Category && rule_label(entered_rule(i, entered)->0)
                    == option_labels()[i]
            &&& r(0).value == "pictures"@ && rule_label(r(0)) == "are pictures"@
            &&& r(1).value == "documents"@ && rule_label(r(1)) == "are documents"@
            &&& r(2).value == "apps"@ && rule_label(r(2)) == "are apps or shortcuts"@
            &&& r(3).value == "folders"@ && rule_label(r(3)) == "are folders"@
            &&& r(4).value == "media"@ && rule_label(r(4)) == "are videos or music"@
        }),
        option_labels().len() == 7,
        option_labels()[5] == "have a name containing…"@,
        option_labels()[6] == "have the file type…"@,
{
    reveal_strlit("pictures");
    reveal_strlit("documents");
    reveal_strlit("apps");
    reveal_strlit("folders");
    reveal_strlit("media");
    let c = option_categories();
    assert(c[0][0] == 'p' && c[1][0] == 'd' && c[2][0] == 'a' && c[3][0] == 'f' && c[4][0] == 'm');
    assert forall|i: int| 0 <= i < 5 implies #[trigger] c.index_of_first(c[i]) == Some(i) by {
        c.index_of_first_ensures(c[i]);
        let j = c.index_of_first(c[i])->0;
        assert(c[j][0] == c[i][0]);
    }
    assert(c.index_of_first(c[0]) == Some(0int));
    assert(c.index_of_first(c[1]) == Some(1int));
    assert(c.index_of_first(c[2]) == Some(2int));
    assert(c.index_of_first(c[3]) == Some(3int));
    assert(c.index_of_first(c[4]) == Some(4int));
    assert forall|i: int| 0 <= i < 5 implies #[trigger] entered_rule(i, entered) is Some && (
    entered_rule(i, entered)->0).kind == RuleKind::Category && rule_label(
        entered_rule(i, entered)->0,
    ) == option_labels()[i] by {
        assert(c.index_of_first(c[i]) == Some(i));
    }
}

/// The sixth choice makes a rule on names from the text without the white space
/// around it, and the seventh one on file types, without the dots in front and
/// in lower case. A text of which nothing is left makes no rule, and there are
/// no other choices.
pub proof fn law_entering_a_text(choice: int, entered: Seq<char>)
    ensures
        choice == 5 && trimmed(entered).len() > 0 ==> entered_rule(choice, entered) == Some(
            RuleView { kind: RuleKind::NameContains, value: trimmed(entered) },
        ),
        choice == 5 && trimmed(entered).len() == 0 ==> entered_rule(choice, entered) is None,
        choice == 6 && folded(without_leading(trimmed(entered), '.')).len() > 0 && trimmed(
            entered,
        ).len() > 0 ==> entered_rule(choice, entered) == Some(
            RuleView {
                kind: RuleKind::Extension,
                value: folded(without_leading(trimmed(entered), '.')),
            },
        ),
        choice == 6 && folded(without_leading(trimmed(entered), '.')).len() == 0 ==> entered_rule(
            choice,
            entered,
        ) is None,
        choice == 6 && trimmed(entered).len() == 0 ==> entered_rule(choice, entered) is None,
        choice < 0 || choice > 6 ==> entered_rule(choice, entered) is None,
{
}

/// A category that is no choice is shown by its name, and a text in quotes
/// behind the words of its choice.
pub proof fn law_labels_of_rules(value: Seq<char>)
    ensures
        value != "pictures"@ && value != "documents"@ && value != "apps"@ && value != "folders"@
            && value != "media"@ ==> rule_label(RuleView { kind: RuleKind::Category, value })
            == value,
        rule_label(RuleView { kind: RuleKind::NameContains, value }) == "have a name containing \""@
            + value + "\""@,
        rule_label(RuleView { kind: RuleKind::Extension, value }) == "have the file type \""@ + value
            + "\""@,
{
    let c = option_categories();
    c.index_of_first_ensures(value);
    if c.index_of_first(value) is Some {
        let i = c.index_of_first(value)->0;
        assert(c[i] == value);
        assert(i == 0 || i == 1 || i == 2 || i == 3 || i == 4);
    }
}

/// The list shows the rules of the first fence with the id, one for one, and
/// nothing where no fence has it.
pub proof fn law_listed_rules(fences: Seq<FenceView>, id: Seq<char>, i: int, k: int)
    ensures
        0 <= i < fences.len() && fences[i].id == id && (forall|j: int|
            0 <= j < i ==> (#[trigger] fences[j]).id != id) ==> {
            &&& labels_of(fences, id).len() == fences[i].rules.len()
            &&& 0 <= k < fences[i].rules.len() ==> labels_of(fences, id)[k] == rule_label(
                fences[i].rules[k],
            )
        },
        (forall|j: int| 0 <= j < fences.len() ==> (#[trigger] fences[j]).id != id) ==> labels_of(
            fences,
            id,
        ).len() == 0,
{
    if 0 <= i < fences.len() && fences[i].id == id && (forall|j: int|
        0 <= j < i ==> (#[trigger] fences[j]).id != id) {
        lemma_is_first(fences, crate::config::has_id(id), i);
    }
    if forall|j: int| 0 <= j < fences.len() ==> (#[trigger] fences[j]).id != id {
        lemma_is_nowhere(fences, crate::config::has_id(id));
    }
}

/// The holder of a rule is the first fence that has the same rule somewhere
/// among its own; there is none if no fence has it.
pub proof fn law_holder_of_a_rule(fences: Seq<FenceView>, rule: RuleView, i: int, k: int)
    requires
        0 <= i < fences.len(),
        0 <= k < fences[i].rules.len(),
    ensures
        same_rule(fences[i].rules[k], rule) ==> holder_of(fences, rule) is Some && holder_of(
            fences,
            rule,
        )->0 <= i,
        holder_of(fences, rule) matches Some(h) ==> 0 <= h < fences.len() && exists|l: int|
            0 <= l < fences[h].rules.len() && same_rule(#[trigger] fences[h].rules[l], rule),
        taken_message(fences[i].title) == "The fence \""@ + fences[i].title
            + "\" already has this rule."@,
{
    lemma_first_index(fences, holds_rule(rule));
    if same_rule(fences[i].rules[k], rule) {
        assert(holds_rule(rule)(fences[i]));
    }
    match holder_of(fences, rule) {
        Some(h) => {
            assert(holds_rule(rule)(fences[h]));
        },
        None => {},
    }
}

/// A rule that is added comes behind those that the first fence with the id has.
/// A rule that is removed leaves the others in their order. Nothing else of that
/// fence changes, and no other fence does.
pub proof fn law_adding_and_removing(
    fences: Seq<FenceView>,
    id: Seq<char>,
    rule: RuleView,
    at: int,
    i: int,
)
    requires
        0 <= i < fences.len(),
        fences[i].id == id,
        forall|j: int| 0 <= j < i ==> (#[trigger] fences[j]).id != id,
    ensures
        ({
            let more = with_rule(fences, id, rule);
            let r = more[i].rules;
            &&& more.len() == fences.len()
            &&& r.len() == fences[i].rules.len() + 1
            &&& r.take(r.len() - 1) == fences[i].rules
            &&& r[r.len() - 1] == rule
            &&& more[i] == (FenceView { rules: r, ..fences[i] })
            &&& forall|j: int|
                0 <= j < fences.len() && j != i ==> #[trigger] more[j] == fences[j]
        }),
        0 <= at < fences[i].rules.len() ==> ({
            let less = without_rule(fences, id, at);
            let r = less[i].rules;
            &&& less.len() == fences.len()
            &&& r.len() == fences[i].rules.len() - 1
            &&& r.take(at) == fences[i].rules.take(at)
            &&& r.skip(at) == fences[i].rules.skip(at + 1)
            &&& less[i] == (FenceView { rules: r, ..fences[i] })
            &&& forall|j: int|
                0 <= j < fences.len() && j != i ==> #[trigger] less[j] == fences[j]
        }),
        at < 0 || at >= fences[i].rules.len() ==> without_rule(fences, id, at) == fences,
{
    lemma_is_first(fences, crate::config::has_id(id), i);
    let more = with_rule(fences, id, rule);
    let r = more[i].rules;
    assert(r.take(r.len() - 1) =~= fences[i].rules);
    if 0 <= at < fences[i].rules.len() {
        let s = without_rule(fences, id, at)[i].rules;
        assert(s.take(at) =~= fences[i].rules.take(at));
        assert(s.skip(at) =~= fences[i].rules.skip(at + 1));
    }
}

/// Where no fence has the id, no rule is added or removed.
pub proof fn law_no_fence_no_rule(
    fences: Seq<FenceView>,
    id: Seq<char>,
    rule: RuleView,
    at: int,
)
    requires
        forall|j: int| 0 <= j < fences.len() ==> (#[trigger] fences[j]).id != id,
    ensures
        with_rule(fences, id, rule) == fences,
        without_rule(fences, id, at) == fences,
{
    lemma_is_nowhere(fences, crate::config::has_id(id));
}

} // verus!
