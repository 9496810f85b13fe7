//! The traversal driver's state machine. The caller walks the project
//! tree and hands each entry to `Runner::visit_entry`, which resolves the
//! file type, counts matches, and synthesizes the header to apply; the
//! caller performs the read, the mutation decision and the write, and
//! reports a landed write through `Runner::record_added`.

use vstd::prelude::*;
use crate::header::rendered_header;
use crate::header::synthesize;
use crate::style::Config;
use crate::style::RuleModel;
use crate::style::ext_of;
use crate::style::extension_of;
use crate::style::lemma_no_dot_no_ext;
use crate::style::rule_lookup;
use crate::text::join_lines;
use crate::text::join_with_newlines;

verus! {

broadcast use crate::text::lemma_bytes_deep_view;

/// One entry yielded by the traversal: a regular file with its name, or
/// anything else (a directory, a symlink to a non-file, a special file).
pub enum Entry {
    NonFile,
    File { name: Vec<u8> },
}

/// The mathematical shape of an `Entry`.
pub enum EntryModel {
    NonFile,
    File(Seq<u8>),
}

impl View for Entry {
    type V = EntryModel;

    open spec fn view(&self) -> EntryModel {
        match self {
            Entry::NonFile => EntryModel::NonFile,
            Entry::File { name } => EntryModel::File(name@),
        }
    }
}

/// What the caller has to do for one entry: nothing, or read the file and
/// apply the carried header text to it.
pub enum Action {
    Skip,
    Apply { header: Vec<u8> },
}

/// The mathematical shape of an `Action`.
pub enum ActionModel {
    Skip,
    Apply(Seq<u8>),
}

impl View for Action {
    type V = ActionModel;

    open spec fn view(&self) -> ActionModel {
        match self {
            Action::Skip => ActionModel::Skip,
            Action::Apply { header } => ActionModel::Apply(header@),
        }
    }
}

/// How many matched file types one entry contributes: one exactly when the
/// entry is a regular file whose extension has a configured rule, enabled
/// or not.
pub open spec fn step_matched(rules: Seq<RuleModel>, e: EntryModel) -> nat {
    match e {
        EntryModel::NonFile => 0,
        EntryModel::File(name) => match ext_of(name) {
            Option::None => 0,
            Option::Some(ext) => if rule_lookup(rules, ext) is Some {
                1
            } else {
                0
            },
        },
    }
}

/// The action one entry gives rise to: only a regular file whose extension
/// resolves to an enabled rule is given a header, and that header is the
/// one rendered for exactly this file.
pub open spec fn step_action(
    rules: Seq<RuleModel>,
    tpl: Seq<Seq<u8>>,
    year: u32,
    e: EntryModel,
) -> ActionModel {
    match e {
        EntryModel::NonFile => ActionModel::Skip,
        EntryModel::File(name) => match ext_of(name) {
            Option::None => ActionModel::Skip,
            Option::Some(ext) => match rule_lookup(rules, ext) {
                Option::None => ActionModel::Skip,
                Option::Some(rule) => if rule.enabled {
                    ActionModel::Apply(rendered_header(tpl, name, year, rule.style))
                } else {
                    ActionModel::Skip
                },
            },
        },
    }
}

/// `c` grown by `add`, capped at the counter's maximum.
pub open spec fn saturating_count(c: u32, add: nat) -> u32 {
    if c + add > u32::MAX {
        u32::MAX
    } else {
        (c + add) as u32
    }
}

/// The per-run counters reported when the traversal is done.
pub struct Summary {
    pub files_changed: u32,
    pub filetypes_matched: u32,
}

/// The run-scoped state of one traversal: the loaded configuration, the
/// raw template lines, the year, and the two counters.
pub struct Runner {
    pub config: Config,
    pub template: Vec<Vec<u8>>,
    pub year: u32,
    pub files_changed: u32,
    pub filetypes_matched: u32,
}

impl Runner {
    /// A fresh run over `config` and `template`, with both counters zero.
    pub fn new(config: Config, template: Vec<Vec<u8>>, year: u32) -> (r: Runner)
        ensures
            r.config == config,
            r.template == template,
            r.year == year,
            r.files_changed == 0,
            r.filetypes_matched == 0,
    {
        Runner { config, template, year, files_changed: 0, filetypes_matched: 0 }
    }

    /// Decides what to do for one traversal entry. Non-file entries are
    /// never passed to the style resolver and change nothing. A file whose
    /// extension is found counts one matched file type; only an enabled
    /// rule yields a header to apply. `files_changed` never moves here:
    /// it moves only through `record_added`, after a write landed.
    pub fn visit_entry(&mut self, e: &Entry) -> (r: Action)
        ensures
            final(self).config == old(self).config,
            final(self).template == old(self).template,
            final(self).year == old(self).year,
            final(self).files_changed == old(self).files_changed,
            final(self).filetypes_matched == saturating_count(
                old(self).filetypes_matched,
                step_matched(old(self).config@, e@),
            ),
            r@ == step_action(old(self).config@, old(self).template.deep_view(), old(self).year, e@),
    {
        match e {
            Entry::NonFile => Action::Skip,
            Entry::File { name } => {
                match extension_of(name) {
                    None => Action::Skip,
                    Some(ext) => {
                        match self.config.resolve(&ext) {
                            None => Action::Skip,
                            Some(rule) => {
                                if self.filetypes_matched < u32::MAX {
                                    self.filetypes_matched = self.filetypes_matched + 1;
                                }
                                if rule.enabled {
                                    let lines = synthesize(&self.template, name, self.year, rule);
                                    let header = join_with_newlines(&lines);
                                    assert(header@ == rendered_header(
                                        old(self).template.deep_view(),
                                        name@,
                                        old(self).year,
                                        rule@.style,
                                    ));
                                    Action::Apply { header }
                                } else {
                                    Action::Skip
                                }
                            },
                        }
                    },
                }
            },
        }
    }

    /// Records that a header was inserted and the write landed: exactly
    /// one more changed file.
    pub fn record_added(&mut self)
        ensures
            final(self).config == old(self).config,
            final(self).template == old(self).template,
            final(self).year == old(self).year,
            final(self).filetypes_matched == old(self).filetypes_matched,
            final(self).files_changed == saturating_count(old(self).files_changed, 1),
    {
        if self.files_changed < u32::MAX {
            self.files_changed = self.files_changed + 1;
        }
    }

    /// The counters to report when the traversal is done.
    pub fn summary(&self) -> (s: Summary)
        ensures
            s.files_changed == self.files_changed,
            s.filetypes_matched == self.filetypes_matched,
    {
        Summary { files_changed: self.files_changed, filetypes_matched: self.filetypes_matched }
    }

    /// Whether the advisory warning is owed: no configured file type
    /// matched anything in the whole run.
    pub fn zero_match_warning(&self) -> (r: bool)
        ensures
            r == (self.filetypes_matched == 0),
    {
        self.filetypes_matched == 0
    }
}

/// Entries that are not regular files are skipped outright: the step never
/// consults the style resolver, contributes no matched file type, and
/// yields no action.
pub proof fn lemma_non_file_skipped(rules: Seq<RuleModel>, tpl: Seq<Seq<u8>>, year: u32)
    ensures
        step_action(rules, tpl, year, EntryModel::NonFile) == ActionModel::Skip,
        step_matched(rules, EntryModel::NonFile) == 0,
{
}

/// A file name without any `.` never matches a rule: its entry is skipped
/// and counts nothing.
pub proof fn lemma_no_extension_skipped(
    rules: Seq<RuleModel>,
    tpl: Seq<Seq<u8>>,
    year: u32,
    name: Seq<u8>,
)
    requires
        forall|i: int| 0 <= i < name.len() ==> name[i] != 46u8,
    ensures
        step_action(rules, tpl, year, EntryModel::File(name)) == ActionModel::Skip,
        step_matched(rules, EntryModel::File(name)) == 0,
{
    lemma_no_dot_no_ext(name);
}

/// A rule that is found but disabled counts the file type as matched yet
/// never mutates: the step's action is to skip the file, so nothing of
/// that file ever reaches `record_added` and `files_changed` stays put.
pub proof fn lemma_disabled_rule_never_mutates(
    rules: Seq<RuleModel>,
    tpl: Seq<Seq<u8>>,
    year: u32,
    name: Seq<u8>,
    ext: Seq<u8>,
    rule: RuleModel,
)
    requires
        ext_of(name) == Some(ext),
        rule_lookup(rules, ext) == Some(rule),
        !rule.enabled,
    ensures
        step_action(rules, tpl, year, EntryModel::File(name)) == ActionModel::Skip,
        step_matched(rules, EntryModel::File(name)) == 1,
{
}

/// The matched-file-types count of a whole run: the per-entry steps summed
/// over the traversal's entries.
pub open spec fn matched_total(rules: Seq<RuleModel>, entries: Seq<EntryModel>) -> nat
    decreases entries.len(),
{
    if entries.len() == 0 {
        0
    } else {
        step_matched(rules, entries[0]) + matched_total(rules, entries.skip(1))
    }
}

/// The matched counter after visiting `entries` one by one, starting from
/// `c`: each entry grows the counter by its step, saturating — exactly
/// what a run of `visit_entry` calls does to `filetypes_matched`.
pub open spec fn matched_after(c: u32, rules: Seq<RuleModel>, entries: Seq<EntryModel>) -> u32
    decreases entries.len(),
{
    if entries.len() == 0 {
        c
    } else {
        matched_after(saturating_count(c, step_matched(rules, entries[0])), rules, entries.skip(1))
    }
}

/// Visiting entries one after another accumulates exactly the run's total:
/// the stepwise saturating counter equals the counter grown once by the
/// sum of all steps.
pub proof fn lemma_matched_after_is_total(c: u32, rules: Seq<RuleModel>, entries: Seq<EntryModel>)
    ensures
        matched_after(c, rules, entries) == saturating_count(c, matched_total(rules, entries)),
    decreases entries.len(),
{
    if entries.len() > 0 {
        let first = step_matched(rules, entries[0]);
        lemma_matched_after_is_total(saturating_count(c, first), rules, entries.skip(1));
    }
}

/// Zero-match advisory: over a tree whose entries all match no configured
/// rule, the matched count of the whole run is zero — the condition that
/// turns the misconfiguration warning on.
pub proof fn lemma_unmatched_tree_counts_zero(rules: Seq<RuleModel>, entries: Seq<EntryModel>)
    requires
        forall|i: int| 0 <= i < entries.len() ==> step_matched(rules, #[trigger] entries[i]) == 0,
    ensures
        matched_total(rules, entries) == 0,
        matched_after(0, rules, entries) == 0,
    decreases entries.len(),
{
    if entries.len() > 0 {
        assert(step_matched(rules, entries[0]) == 0);
        assert forall|i: int|
            0 <= i < entries.skip(1).len() implies step_matched(
            rules,
            #[trigger] entries.skip(1)[i],
        ) == 0 by {
            assert(entries.skip(1)[i] == entries[i + 1]);
        }
        lemma_unmatched_tree_counts_zero(rules, entries.skip(1));
    }
    lemma_matched_after_is_total(0, rules, entries);
}

} // verus!
