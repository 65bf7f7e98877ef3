use vstd::prelude::*;

use crate::expansion::{parse_expansion, table_of_text};
use crate::probe::{names_view, probe_source, probe_text};
use crate::rename_table::{is_injective, left_of, lemma_left_of_unique, opt_view, right_of, RenameTable};

verus! {

/// What a header scanner should do with a macro it has just met.
#[derive(Clone, Copy, Debug, PartialEq, Eq, Structural)]
pub enum MacroParsingBehavior {
    /// Generate nothing for the macro.
    Ignore,
    /// Handle the macro as the scanner would anyway.
    Default,
}

/// The kind of a generated item whose name may be overridden.
#[derive(Clone, Copy, Debug, PartialEq, Eq, Structural)]
pub enum ItemKind {
    Module,
    Type,
    Function,
    Var,
}

/// What the caller owes after a call of `FunctionRenames::expand`.
#[derive(Clone, Copy, Debug, PartialEq, Eq, Structural)]
pub enum ExpandStep {
    /// The rename table is in place.
    Ready,
    /// The probe source must be run through the preprocessor, and its output
    /// handed to `FunctionRenames::finish_expand`.
    NeedsPreprocessing,
}

/// The state of a collector: its prefix, the macro names recorded so far in
/// order (repeats included), and the rename table once it has been computed.
pub ghost struct RenamesState {
    pub prefix: Seq<char>,
    pub names: Seq<Seq<char>>,
    pub table: Option<Map<Seq<char>, Seq<char>>>,
}

pub open spec fn has_prefix(prefix: Seq<char>, name: Seq<char>) -> bool {
    prefix.len() <= name.len() && name.subrange(0, prefix.len() as int) == prefix
}

/// The state after the scanner reports the macro `name`.
pub open spec fn observe(s: RenamesState, name: Seq<char>) -> RenamesState {
    if has_prefix(s.prefix, name) {
        RenamesState { names: s.names.push(name), ..s }
    } else {
        s
    }
}

/// What a request for the rename table asks of the caller, and the state after it.
pub open spec fn expand_step(s: RenamesState) -> (ExpandStep, RenamesState) {
    match s.table {
        Some(_) => (ExpandStep::Ready, s),
        None => if s.names.len() == 0 {
            (ExpandStep::Ready, RenamesState { table: Some(Map::empty()), ..s })
        } else {
            (ExpandStep::NeedsPreprocessing, s)
        },
    }
}

/// The state once the preprocessor's output `text` has been read.
pub open spec fn finish_step(s: RenamesState, text: Seq<char>) -> RenamesState {
    RenamesState { table: Some(table_of_text(text)), ..s }
}

/// One request for the rename table, carried out in full, where the
/// preprocessor would answer with `text`.
pub open spec fn table_request(s: RenamesState, text: Seq<char>) -> RenamesState {
    let (step, next) = expand_step(s);
    if step == ExpandStep::NeedsPreprocessing {
        finish_step(next, text)
    } else {
        next
    }
}

/// The name under which the item `name` of kind `kind` is to be exposed.
pub open spec fn name_override(s: RenamesState, kind: ItemKind, name: Seq<char>) -> Option<
    Seq<char>,
> {
    match (kind, s.table) {
        (ItemKind::Function, Some(m)) => left_of(m, name),
        _ => None,
    }
}

/// The symbol that the item `name` of kind `kind` is to be linked against.
pub open spec fn link_name_override(s: RenamesState, kind: ItemKind, name: Seq<char>) -> Option<
    Seq<char>,
> {
    match (kind, s.table) {
        (ItemKind::Function, Some(m)) => right_of(m, name),
        _ => None,
    }
}

/// Collects the macro names that carry a prefix, and holds the rename table
/// that is computed from them once.
pub struct FunctionRenames {
    func_prefix: String,
    macro_names: Vec<String>,
    func_remaps: Option<RenameTable>,
}

impl View for FunctionRenames {
    type V = RenamesState;

    closed spec fn view(&self) -> RenamesState {
        RenamesState {
            prefix: self.func_prefix@,
            names: names_view(self.macro_names@),
            table: match self.func_remaps {
                Some(t) => Some(t@),
                None => None,
            },
        }
    }
}

/// Whether `name` starts with `prefix`.
fn starts_with(name: &str, prefix: &str) -> (b: bool)
    ensures
        b == has_prefix(prefix@, name@),
{
    let n = name.unicode_len();
    let m = prefix.unicode_len();
    if m > n {
        return false;
    }
    let mut k: usize = 0;
    while k < m
        invariant
            m == prefix@.len() <= n == name@.len(),
            k <= m,
            forall|j: int| 0 <= j < k ==> name@[j] == prefix@[j],
        decreases m - k,
    {
        if name.get_char(k) != prefix.get_char(k) {
            assert(name@.subrange(0, m as int)[k as int] != prefix@[k as int]);
            return false;
        }
        k += 1;
    }
    assert(name@.subrange(0, m as int) =~= prefix@);
    true
}

impl FunctionRenames {
    /// The recorded table, where there is one, is a bijection.
    pub open spec fn wf(&self) -> bool {
        match self@.table {
            Some(m) => is_injective(m),
            None => true,
        }
    }

    /// A collector for the macros whose names start with `func_prefix`.
    pub fn new(func_prefix: &str) -> (r: FunctionRenames)
        ensures
            r.wf(),
            r@ == (RenamesState { prefix: func_prefix@, names: Seq::empty(), table: None }),
    {
        let r = FunctionRenames {
            func_prefix: String::from_str(func_prefix),
            macro_names: Vec::new(),
            func_remaps: None,
        };
        assert(r@.names =~= Seq::<Seq<char>>::empty());
        r
    }

    fn record_macro(&mut self, name: &str)
        ensures
            final(self)@ == (RenamesState { names: old(self)@.names.push(name@), ..old(self)@ }),
            final(self).func_remaps == old(self).func_remaps,
    {
        self.macro_names.push(String::from_str(name));
        assert(final(self)@.names =~= old(self)@.names.push(name@));
    }

    /// Reports the macro `name` met by the scanner; it is recorded when it
    /// starts with the prefix. The scanner's own handling is never changed.
    pub fn will_parse_macro(&mut self, name: &str) -> (b: MacroParsingBehavior)
        requires
            old(self).wf(),
        ensures
            final(self).wf(),
            final(self)@ == observe(old(self)@, name@),
            b == MacroParsingBehavior::Default,
    {
        if starts_with(name, self.func_prefix.as_str()) {
            self.record_macro(name);
        }
        MacroParsingBehavior::Default
    }

    /// Whether the rename table has been computed.
    pub fn is_expanded(&self) -> (b: bool)
        ensures
            b == self@.table is Some,
    {
        self.func_remaps.is_some()
    }

    /// Starts a request for the rename table. Where the table is in place
    /// nothing changes; where no name was recorded the table is empty and no
    /// preprocessing is asked for; otherwise the caller must preprocess the
    /// probe source and finish with `finish_expand`.
    pub fn expand(&mut self) -> (step: ExpandStep)
        requires
            old(self).wf(),
        ensures
            final(self).wf(),
            (step, final(self)@) == expand_step(old(self)@),
    {
        if self.func_remaps.is_some() {
            return ExpandStep::Ready;
        }
        if self.macro_names.len() == 0 {
            self.func_remaps = Some(RenameTable::new());
            return ExpandStep::Ready;
        }
        ExpandStep::NeedsPreprocessing
    }

    /// The probe translation unit for the recorded names, after `includes`.
    pub fn probe_source(&self, includes: &str) -> (r: String)
        ensures
            r@ == probe_text(includes@, self@.names),
    {
        probe_source(includes, &self.macro_names)
    }

    /// Records the rename table read from the preprocessor's output `text`.
    /// The table is computed once: this needs it absent.
    pub fn finish_expand(&mut self, text: &str)
        requires
            old(self).wf(),
            old(self)@.table is None,
        ensures
            final(self).wf(),
            final(self)@ == finish_step(old(self)@, text@),
    {
        self.func_remaps = Some(parse_expansion(text));
    }

    /// The rename table, once it has been computed.
    pub fn get_rename_table(&self) -> (r: Option<&RenameTable>)
        requires
            self.wf(),
        ensures
            r is Some == self@.table is Some,
            r is Some ==> r->0.wf() && self@.table == Some(r->0@),
    {
        match &self.func_remaps {
            Some(t) => Some(t),
            None => None,
        }
    }

    /// The visible name to expose for the item `name` of kind `kind`: for a
    /// function whose name some macro expands to, that macro's name.
    pub fn generated_name_override(&self, kind: ItemKind, name: &str) -> (r: Option<String>)
        requires
            self.wf(),
            self@.table is Some,
        ensures
            opt_view(r) == name_override(self@, kind, name@),
    {
        match kind {
            ItemKind::Function => match &self.func_remaps {
                Some(t) => t.get_by_right(name),
                None => None,
            },
            _ => None,
        }
    }

    /// The symbol to link the item `name` of kind `kind` against: for a
    /// function that is a renaming macro, what the macro expands to.
    pub fn generated_link_name_override(&self, kind: ItemKind, name: &str) -> (r: Option<String>)
        requires
            self@.table is Some,
        ensures
            opt_view(r) == link_name_override(self@, kind, name@),
    {
        match kind {
            ItemKind::Function => match &self.func_remaps {
                Some(t) => t.get_by_left(name),
                None => None,
            },
            _ => None,
        }
    }
}

/// A name without the prefix leaves the collector as it was.
pub proof fn lemma_other_names_ignored(s: RenamesState, name: Seq<char>)
    requires
        !has_prefix(s.prefix, name),
    ensures
        observe(s, name) == s,
        observe(s, name).names.len() == s.names.len(),
{
}

/// With no name recorded, a request for the table asks for no preprocessing
/// and yields the empty table.
pub proof fn lemma_no_names_no_preprocessing(s: RenamesState)
    requires
        s.names.len() == 0,
    ensures
        expand_step(s).0 == ExpandStep::Ready,
        s.table is None ==> expand_step(s).1.table == Some(Map::<Seq<char>, Seq<char>>::empty()),
{
}

/// The table is computed by the first request at the latest: after it, every
/// request finds the table in place, asks for no preprocessing, and changes
/// nothing, whatever the preprocessor would answer.
pub proof fn lemma_table_computed_once(s: RenamesState, text: Seq<char>, later: Seq<char>)
    ensures
        table_request(s, text).table is Some,
        expand_step(table_request(s, text)) == (ExpandStep::Ready, table_request(s, text)),
        table_request(table_request(s, text), later) == table_request(s, text),
{
}

/// Each pair of the table round-trips through the two overrides: the
/// expanded name is exposed as the visible one, and the visible name links
/// against the expanded one.
pub proof fn lemma_round_trip(s: RenamesState, visible: Seq<char>, expanded: Seq<char>)
    requires
        s.table is Some,
        is_injective(s.table->0),
        s.table->0.contains_key(visible),
        s.table->0[visible] == expanded,
    ensures
        name_override(s, ItemKind::Function, expanded) == Some(visible),
        link_name_override(s, ItemKind::Function, visible) == Some(expanded),
{
    lemma_left_of_unique(s.table->0, expanded, visible);
}

} // verus!
