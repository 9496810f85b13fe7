//! Filetype rules and their resolution: how a file's extension is derived
//! from its name, and how an extension is looked up in the configured
//! extension-to-rule mapping.

use vstd::prelude::*;

verus! {

/// How header lines are wrapped into comments for one file type: either a
/// prefix put in front of every line, or an open/close delimiter pair put
/// around the whole block.
pub enum CommentStyle {
    LinePrefix { prefix: Vec<u8> },
    BlockDelimiters { opener: Vec<u8>, closer: Vec<u8> },
}

/// The mathematical shape of a `CommentStyle`.
pub enum StyleModel {
    Line(Seq<u8>),
    Block(Seq<u8>, Seq<u8>),
}

impl View for CommentStyle {
    type V = StyleModel;

    open spec fn view(&self) -> StyleModel {
        match self {
            CommentStyle::LinePrefix { prefix } => StyleModel::Line(prefix@),
            CommentStyle::BlockDelimiters { opener, closer } => StyleModel::Block(
                opener@,
                closer@,
            ),
        }
    }
}

/// One configured file type: the extension it is keyed by, whether header
/// insertion is enabled for it, and its comment style.
pub struct FiletypeRule {
    pub extension: Vec<u8>,
    pub enabled: bool,
    pub style: CommentStyle,
}

/// The mathematical shape of a `FiletypeRule`.
pub struct RuleModel {
    pub extension: Seq<u8>,
    pub enabled: bool,
    pub style: StyleModel,
}

impl View for FiletypeRule {
    type V = RuleModel;

    open spec fn view(&self) -> RuleModel {
        RuleModel { extension: self.extension@, enabled: self.enabled, style: self.style@ }
    }
}

/// The first rule in `rules` keyed by `ext`, if any.
pub open spec fn rule_lookup(rules: Seq<RuleModel>, ext: Seq<u8>) -> Option<RuleModel>
    decreases rules.len(),
{
    if rules.len() == 0 {
        None
    } else if rules[0].extension == ext {
        Some(rules[0])
    } else {
        rule_lookup(rules.skip(1), ext)
    }
}

/// Whether no two rules share an extension; the loaded configuration keeps
/// its mapping keyed by extension, so keys are unique.
pub open spec fn rules_unique(rules: Seq<RuleModel>) -> bool {
    forall|i: int, j: int|
        0 <= i < j < rules.len() ==> rules[i].extension != rules[j].extension
}

/// The loaded configuration's extension-to-rule mapping.
pub struct Config {
    rules: Vec<FiletypeRule>,
}

impl View for Config {
    type V = Seq<RuleModel>;

    closed spec fn view(&self) -> Seq<RuleModel> {
        self.rules@.map_values(|r: FiletypeRule| r@)
    }
}

fn bytes_eq(a: &Vec<u8>, b: &Vec<u8>) -> (r: bool)
    ensures
        r == (a@ == b@),
{
    if a.len() != b.len() {
        return false;
    }
    let mut j: usize = 0;
    while j < a.len()
        invariant
            j <= a@.len(),
            a@.len() == b@.len(),
            forall|k: int| 0 <= k < j ==> a@[k] == b@[k],
        decreases a@.len() - j,
    {
        if a[j] != b[j] {
            return false;
        }
        j += 1;
    }
    assert(a@ =~= b@);
    true
}

impl Config {
    /// A configuration with no rules.
    pub fn new() -> (r: Config)
        ensures
            r@ == Seq::<RuleModel>::empty(),
    {
        let r = Config { rules: Vec::new() };
        assert(r@ =~= Seq::<RuleModel>::empty());
        r
    }

    /// Adds `rule` to the mapping, unless its extension is already keyed;
    /// returns whether the rule was added. Keeps extensions unique.
    pub fn add_rule(&mut self, rule: FiletypeRule) -> (added: bool)
        ensures
            added == (rule_lookup(old(self)@, rule@.extension) is None),
            added ==> final(self)@ == old(self)@.push(rule@),
            !added ==> final(self)@ == old(self)@,
            rules_unique(old(self)@) ==> rules_unique(final(self)@),
    {
        let present = self.resolve(&rule.extension).is_some();
        if present {
            return false;
        }
        let ghost prior = self@;
        proof {
            lemma_lookup_not_found(prior, rule@.extension);
        }
        self.rules.push(rule);
        proof {
            assert(self@ =~= prior.push(rule@));
            if rules_unique(prior) {
                assert forall|i: int, j: int|
                    0 <= i < j < self@.len() implies self@[i].extension != self@[j].extension by {
                    if j < prior.len() {
                    } else {
                        assert(self@[j] == rule@);
                    }
                }
            }
        }
        true
    }

    /// Looks the extension up in the mapping; `None` when no rule is
    /// configured for it.
    pub fn resolve(&self, ext: &Vec<u8>) -> (r: Option<&FiletypeRule>)
        ensures
            match r {
                Some(rule) => rule_lookup(self@, ext@) == Some(rule@),
                None => rule_lookup(self@, ext@) is None,
            },
    {
        let ghost rules = self@;
        let n = self.rules.len();
        let mut i: usize = 0;
        proof {
            assert(rules.skip(0) =~= rules);
        }
        while i < n
            invariant
                i <= n,
                n == self.rules@.len(),
                rules == self@,
                rule_lookup(rules, ext@) == rule_lookup(rules.skip(i as int), ext@),
            decreases n - i,
        {
            assert(rules.skip(i as int)[0] == rules[i as int]);
            if bytes_eq(&self.rules[i].extension, ext) {
                assert(rule_lookup(rules.skip(i as int), ext@) == Some(rules[i as int]));
                return Some(&self.rules[i]);
            }
            assert(rules.skip(i as int).skip(1) =~= rules.skip(i as int + 1));
            i += 1;
        }
        assert(rules.skip(n as int) =~= Seq::<RuleModel>::empty());
        None
    }
}

/// If the lookup finds nothing, no rule in the list is keyed by `ext`.
proof fn lemma_lookup_not_found(rules: Seq<RuleModel>, ext: Seq<u8>)
    requires
        rule_lookup(rules, ext) is None,
    ensures
        forall|i: int| 0 <= i < rules.len() ==> rules[i].extension != ext,
    decreases rules.len(),
{
    if rules.len() > 0 {
        lemma_lookup_not_found(rules.skip(1), ext);
        assert forall|i: int| 0 <= i < rules.len() implies rules[i].extension != ext by {
            if i > 0 {
                assert(rules.skip(1)[i - 1] == rules[i]);
            }
        }
    }
}

/// The extension of a file name: the bytes after the last `.`, or nothing
/// when the name holds no `.` at all.
pub open spec fn ext_of(name: Seq<u8>) -> Option<Seq<u8>>
    decreases name.len(),
{
    if name.len() == 0 {
        None
    } else if name[name.len() - 1] == 46u8 {
        Some(Seq::empty())
    } else {
        match ext_of(name.take(name.len() - 1)) {
            Some(e) => Some(e.push(name[name.len() - 1])),
            None => None,
        }
    }
}

/// A name without any `.` has no extension.
pub proof fn lemma_no_dot_no_ext(name: Seq<u8>)
    requires
        forall|i: int| 0 <= i < name.len() ==> name[i] != 46u8,
    ensures
        ext_of(name) is None,
    decreases name.len(),
{
    if name.len() > 0 {
        lemma_no_dot_no_ext(name.take(name.len() - 1));
    }
}

/// When position `j` holds the last `.` of the name, the extension is
/// exactly the suffix after `j`.
pub proof fn lemma_ext_after_last_dot(name: Seq<u8>, j: int)
    requires
        0 <= j < name.len(),
        name[j] == 46u8,
        forall|k: int| j < k < name.len() ==> name[k] != 46u8,
    ensures
        ext_of(name) == Some(name.skip(j + 1)),
    decreases name.len(),
{
    if j == name.len() - 1 {
        assert(name.skip(j + 1) =~= Seq::<u8>::empty());
    } else {
        let shorter = name.take(name.len() - 1);
        lemma_ext_after_last_dot(shorter, j);
        assert(shorter.skip(j + 1).push(name[name.len() - 1]) =~= name.skip(j + 1));
    }
}

/// The extension of `name`: the bytes after the last `.`, or `None` when
/// the name holds no `.` at all.
pub fn extension_of(name: &Vec<u8>) -> (r: Option<Vec<u8>>)
    ensures
        match r {
            Some(e) => ext_of(name@) == Some(e@),
            None => ext_of(name@) is None,
        },
{
    let n = name.len();
    let mut i: usize = n;
    while i > 0
        invariant
            i <= n,
            n == name@.len(),
            forall|k: int| i <= k < name@.len() ==> name@[k] != 46u8,
        decreases i,
    {
        if name[i - 1] == 46 {
            proof {
                lemma_ext_after_last_dot(name@, i - 1);
            }
            return Some(crate::text::bytes_suffix(name, i));
        }
        i -= 1;
    }
    proof {
        lemma_no_dot_no_ext(name@);
    }
    None
}

} // verus!
