//! Filters: conjunctions of predicates on records and on source ids.

use crate::pattern::{regex_is_match, Pattern};
use crate::position::SourceId;
use vstd::prelude::*;

verus! {

/// Whether a predicate asserts its condition or denies it.
#[derive(Debug, Clone, Copy, PartialEq, Eq, Structural)]
pub enum Form {
    Affirmed,
    Negated,
}

impl Form {
    /// What a predicate of this form says where its condition `holds`.
    pub open spec fn apply(self, holds: bool) -> bool {
        match self {
            Form::Affirmed => holds,
            Form::Negated => !holds,
        }
    }
}

/// A field that a predicate can name.
#[derive(Debug)]
pub enum FieldName {
    /// the message
    Msg,
    /// any other field
    Other(String),
}

/// A condition on a record.
#[derive(Debug)]
pub enum EventPredicate {
    /// the field has exactly this value
    FieldEquals { field: FieldName, value: String, form: Form },
    /// the message matches the pattern
    MsgMatches { pattern: Pattern, form: Form },
    /// a condition that only the record reader evaluates, as written
    Other(String),
}

/// A condition that a filter imposes.
#[derive(Debug)]
pub enum Predicate {
    /// the id of the record's source matches the pattern
    SourceIdMatches { pattern: Pattern, form: Form },
    /// a condition on the record itself
    Event(EventPredicate),
}

/// What a [`FieldName`] says.
pub enum FieldNameView {
    Msg,
    Other(Seq<char>),
}

/// What an [`EventPredicate`] or a [`Predicate`] says.
pub enum PredicateView {
    FieldEquals { field: FieldNameView, value: Seq<char>, form: Form },
    MsgMatches { pattern: Seq<char>, form: Form },
    Other(Seq<char>),
    SourceIdMatches { pattern: Seq<char>, form: Form },
}

impl View for FieldName {
    type V = FieldNameView;

    open spec fn view(&self) -> FieldNameView {
        match self {
            FieldName::Msg => FieldNameView::Msg,
            FieldName::Other(name) => FieldNameView::Other(name@),
        }
    }
}

impl View for EventPredicate {
    type V = PredicateView;

    open spec fn view(&self) -> PredicateView {
        match self {
            EventPredicate::FieldEquals { field, value, form } => PredicateView::FieldEquals {
                field: field@,
                value: value@,
                form: *form,
            },
            EventPredicate::MsgMatches { pattern, form } => PredicateView::MsgMatches {
                pattern: pattern@,
                form: *form,
            },
            EventPredicate::Other(text) => PredicateView::Other(text@),
        }
    }
}

impl View for Predicate {
    type V = PredicateView;

    open spec fn view(&self) -> PredicateView {
        match self {
            Predicate::SourceIdMatches { pattern, form } => PredicateView::SourceIdMatches {
                pattern: pattern@,
                form: *form,
            },
            Predicate::Event(event) => event@,
        }
    }
}

impl Clone for FieldName {
    fn clone(&self) -> (copy: Self)
        ensures
            copy@ == self@,
    {
        match self {
            FieldName::Msg => FieldName::Msg,
            FieldName::Other(name) => FieldName::Other(name.clone()),
        }
    }
}

impl Clone for EventPredicate {
    fn clone(&self) -> (copy: Self)
        ensures
            copy@ == self@,
    {
        match self {
            EventPredicate::FieldEquals { field, value, form } => EventPredicate::FieldEquals {
                field: field.clone(),
                value: value.clone(),
                form: *form,
            },
            EventPredicate::MsgMatches { pattern, form } => EventPredicate::MsgMatches {
                pattern: pattern.share(),
                form: *form,
            },
            EventPredicate::Other(text) => EventPredicate::Other(text.clone()),
        }
    }
}

impl Clone for Predicate {
    fn clone(&self) -> (copy: Self)
        ensures
            copy@ == self@,
    {
        match self {
            Predicate::SourceIdMatches { pattern, form } => Predicate::SourceIdMatches {
                pattern: pattern.share(),
                form: *form,
            },
            Predicate::Event(event) => Predicate::Event(event.clone()),
        }
    }
}

/// A conjunction of predicates; the empty filter accepts everything.
#[derive(Debug)]
pub struct Filter {
    predicates: Vec<Predicate>,
}

/// Whether a predicate lets a source take part.  Only conditions on source
/// ids can keep one out.
pub open spec fn admits_source(predicate: PredicateView, id: Seq<char>) -> bool {
    match predicate {
        PredicateView::SourceIdMatches { pattern, form } => form.apply(
            regex_is_match(pattern, id),
        ),
        _ => true,
    }
}

/// Whether the filter lets a source take part.
pub open spec fn accepts_source(filter: Seq<PredicateView>, id: Seq<char>) -> bool {
    forall|i: int| 0 <= i < filter.len() ==> admits_source(#[trigger] filter[i], id)
}

impl View for Filter {
    type V = Seq<PredicateView>;

    closed spec fn view(&self) -> Seq<PredicateView> {
        self.predicates@.map_values(|p: Predicate| p@)
    }
}

impl Filter {
    /// The filter with the given predicates.
    pub fn new(predicates: Vec<Predicate>) -> (filter: Self)
        ensures
            filter@ == predicates@.map_values(|p: Predicate| p@),
    {
        Filter { predicates }
    }

    /// The predicates, in the order in which they were added.
    pub fn predicates(&self) -> (predicates: &Vec<Predicate>)
        ensures
            predicates@.map_values(|p: Predicate| p@) == self@,
    {
        &self.predicates
    }

    /// Narrows the filter by a further predicate.
    pub fn add_predicate(&mut self, predicate: Predicate)
        ensures
            final(self)@ == old(self)@.push(predicate@),
    {
        self.predicates.push(predicate);
        assert(self@ =~= old(self)@.push(predicate@));
    }

    /// Whether records of the source `id` can pass at all.
    pub fn matches_source_id(&self, id: &SourceId) -> (yes: bool)
        ensures
            yes == accepts_source(self@, id@),
    {
        let mut i: usize = 0;
        while i < self.predicates.len()
            invariant
                i <= self.predicates@.len(),
                forall|k: int| 0 <= k < i ==> admits_source(#[trigger] self@[k], id@),
            decreases self.predicates@.len() - i,
        {
            assert(self@[i as int] == self.predicates@[i as int]@);
            if let Predicate::SourceIdMatches { pattern, form } = &self.predicates[i] {
                let holds = pattern.is_match(id.as_str());
                let admits = match form {
                    Form::Affirmed => holds,
                    Form::Negated => !holds,
                };
                if !admits {
                    assert(!admits_source(self@[i as int], id@));
                    return false;
                }
            }
            i = i + 1;
        }
        true
    }
}

impl Default for Filter {
    /// The filter that accepts everything.
    fn default() -> (filter: Self)
        ensures
            filter@ == Seq::<PredicateView>::empty(),
    {
        let filter = Filter { predicates: Vec::new() };
        assert(filter@ =~= Seq::<PredicateView>::empty());
        filter
    }
}

impl Clone for Filter {
    fn clone(&self) -> (copy: Self)
        ensures
            copy@ == self@,
    {
        let mut predicates: Vec<Predicate> = Vec::new();
        let mut i: usize = 0;
        while i < self.predicates.len()
            invariant
                i <= self.predicates@.len(),
                predicates@.len() == i,
                forall|k: int| 0 <= k < i ==> (#[trigger] predicates@[k])@ == self.predicates@[k]@,
            decreases self.predicates@.len() - i,
        {
            predicates.push(self.predicates[i].clone());
            i = i + 1;
        }
        let copy = Filter { predicates };
        assert(copy@ =~= self@);
        copy
    }
}

/// The written form of filters: how a text is read as a filter, and how a
/// filter is written down.
pub trait FilterSyntax {
    /// The filter that the text spells, or what is wrong with it.
    fn parse(&self, text: &str) -> Result<Filter, String>;

    /// The filter as a text.
    fn show(&self, filter: &Filter) -> String;
}

/// What a text was read as: a filter, or what is wrong with it.
pub type Parsed = Result<Seq<PredicateView>, Seq<char>>;

/// What a parse result says.
pub open spec fn parsed_view(result: Result<Filter, String>) -> Parsed {
    match result {
        Ok(filter) => Ok(filter@),
        Err(error) => Err(error@),
    }
}

/// Whether the syntax reads the text as `parsed`.
pub open spec fn reads_as<F: FilterSyntax>(syntax: F, text: Seq<char>, parsed: Parsed) -> bool {
    exists|written: &str, result: Result<Filter, String>|
        {
            &&& written@ == text
            &&& #[trigger] call_ensures(F::parse, (&syntax, written), result)
            &&& parsed_view(result) == parsed
        }
}

/// Whether the syntax writes the filter as `text`.
pub open spec fn writes_as<F: FilterSyntax>(
    syntax: F,
    filter: Seq<PredicateView>,
    text: Seq<char>,
) -> bool {
    exists|held: Filter, result: String|
        {
            &&& held@ == filter
            &&& #[trigger] call_ensures(F::show, (&syntax, &held), result)
            &&& result@ == text
        }
}

/// A filter that accepts everything lets every source take part, and
/// narrowing a filter never lets in a source that was kept out.
pub proof fn law_narrowing_filters_sources(
    filter: Seq<PredicateView>,
    more: PredicateView,
    id: Seq<char>,
)
    ensures
        accepts_source(Seq::empty(), id),
        accepts_source(filter.push(more), id) == (accepts_source(filter, id) && admits_source(
            more,
            id,
        )),
{
    let longer = filter.push(more);
    if accepts_source(longer, id) {
        assert forall|i: int| 0 <= i < filter.len() implies admits_source(
            #[trigger] filter[i],
            id,
        ) by {
            assert(longer[i] == filter[i]);
        }
        assert(admits_source(longer[filter.len() as int], id));
    }
}

/// A source passes a filter exactly where its id matches every affirmed
/// source pattern and no negated one; predicates on records let it pass.
pub proof fn law_sources_pass_every_pattern(filter: Seq<PredicateView>, id: Seq<char>)
    ensures
        accepts_source(filter, id) <==> forall|i: int|
            0 <= i < filter.len() ==> match #[trigger] filter[i] {
                PredicateView::SourceIdMatches { pattern, form: Form::Affirmed } => regex_is_match(
                    pattern,
                    id,
                ),
                PredicateView::SourceIdMatches { pattern, form: Form::Negated } => !regex_is_match(
                    pattern,
                    id,
                ),
                _ => true,
            },
{
    if accepts_source(filter, id) {
        assert forall|i: int| 0 <= i < filter.len() implies match #[trigger] filter[i] {
            PredicateView::SourceIdMatches { pattern, form: Form::Affirmed } => regex_is_match(
                pattern,
                id,
            ),
            PredicateView::SourceIdMatches { pattern, form: Form::Negated } => !regex_is_match(
                pattern,
                id,
            ),
            _ => true,
        } by {
            assert(admits_source(filter[i], id));
        }
    }
}

} // verus!
