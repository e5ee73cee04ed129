use std::collections::HashMap;
use vstd::prelude::*;

verus! {

/// Error code for a field whose type differs between subgraphs.
pub const FIELD_TYPE_MISMATCH: &'static str = "FIELD_TYPE_MISMATCH";

/// Error code for an argument whose type differs between subgraphs.
pub const ARGUMENT_TYPE_MISMATCH: &'static str = "ARGUMENT_TYPE_MISMATCH";

/// Hint code for field types that differ but can be merged.
pub const INCONSISTENT_BUT_COMPATIBLE_FIELD_TYPE: &'static str = "INCONSISTENT_BUT_COMPATIBLE_FIELD_TYPE";

/// Hint code for argument types that differ but can be merged.
pub const INCONSISTENT_BUT_COMPATIBLE_ARGUMENT_TYPE: &'static str =
    "INCONSISTENT_BUT_COMPATIBLE_ARGUMENT_TYPE";

/// The text of one reported entry: `[<code>] <message>`.
pub open spec fn entry_text(code: Seq<char>, message: Seq<char>) -> Seq<char> {
    seq!['['] + code + seq![']', ' '] + message
}

/// Builds `[<code>] <message>`.
pub fn format_entry(code: &str, message: &str) -> (entry: String)
    ensures
        entry@ == entry_text(code@, message@),
{
    proof {
        reveal_strlit("[");
        reveal_strlit("] ");
    }
    let mut entry = String::from_str("[");
    entry.append(code);
    entry.append("] ");
    entry.append(message);
    entry
}

/// One report made to a mismatch reporter: an error or a hint, with its code
/// and message.
pub enum ReportEvent {
    Error { code: Seq<char>, message: Seq<char> },
    Hint { code: Seq<char>, message: Seq<char> },
}

/// The errors and hints after `event` is reported to a reporter holding
/// `state`: the event's entry is appended to the errors or to the hints.
pub open spec fn after_report(
    state: (Seq<Seq<char>>, Seq<Seq<char>>),
    event: ReportEvent,
) -> (Seq<Seq<char>>, Seq<Seq<char>>) {
    match event {
        ReportEvent::Error { code, message } => (state.0.push(entry_text(code, message)), state.1),
        ReportEvent::Hint { code, message } => (state.0, state.1.push(entry_text(code, message))),
    }
}

/// The entries of the errors of `history`, in report order.
pub open spec fn errors_of(history: Seq<ReportEvent>) -> Seq<Seq<char>>
    decreases history.len(),
{
    if history.len() == 0 {
        Seq::empty()
    } else {
        let earlier = errors_of(history.drop_last());
        match history.last() {
            ReportEvent::Error { code, message } => earlier.push(entry_text(code, message)),
            ReportEvent::Hint { .. } => earlier,
        }
    }
}

/// The entries of the hints of `history`, in report order.
pub open spec fn hints_of(history: Seq<ReportEvent>) -> Seq<Seq<char>>
    decreases history.len(),
{
    if history.len() == 0 {
        Seq::empty()
    } else {
        let earlier = hints_of(history.drop_last());
        match history.last() {
            ReportEvent::Hint { code, message } => earlier.push(entry_text(code, message)),
            ReportEvent::Error { .. } => earlier,
        }
    }
}

/// Structured reporting of merge mismatches: errors and hints, each in the
/// order they were reported.
pub struct MismatchReporter {
    errors: Vec<String>,
    hints: Vec<String>,
}

impl MismatchReporter {
    /// The texts of the errors reported so far, oldest first.
    pub closed spec fn error_texts(&self) -> Seq<Seq<char>> {
        self.errors@.map_values(|s: String| s@)
    }

    /// The texts of the hints reported so far, oldest first.
    pub closed spec fn hint_texts(&self) -> Seq<Seq<char>> {
        self.hints@.map_values(|s: String| s@)
    }

    /// The errors and the hints reported so far, each oldest first.
    pub open spec fn state(&self) -> (Seq<Seq<char>>, Seq<Seq<char>>) {
        (self.error_texts(), self.hint_texts())
    }

    /// A reporter with no errors and no hints.
    pub fn new() -> (reporter: Self)
        ensures
            reporter.error_texts() == Seq::<Seq<char>>::empty(),
            reporter.hint_texts() == Seq::<Seq<char>>::empty(),
    {
        let reporter = MismatchReporter { errors: Vec::new(), hints: Vec::new() };
        assert(reporter.error_texts() =~= Seq::<Seq<char>>::empty());
        assert(reporter.hint_texts() =~= Seq::<Seq<char>>::empty());
        reporter
    }

    /// Records the error `[<error_code>] <message>` after the earlier ones.
    /// The coordinate, the sources and the formatter are not used.
    pub fn report_mismatch_error(
        &mut self,
        error_code: &str,
        message: String,
        _element_coordinate: &str,
        _sources: &HashMap<String, String>,
        _field_formatter: impl Fn(&str) -> String,
    )
        ensures
            final(self).error_texts() == old(self).error_texts().push(
                entry_text(error_code@, message@),
            ),
            final(self).hint_texts() == old(self).hint_texts(),
            final(self).state() == after_report(
                old(self).state(),
                ReportEvent::Error { code: error_code@, message: message@ },
            ),
    {
        let entry = format_entry(error_code, message.as_str());
        self.errors.push(entry);
        assert(self.error_texts() =~= old(self).error_texts().push(
            entry_text(error_code@, message@),
        ));
    }

    /// Records the hint `[<hint_code>] <message>` after the earlier ones.
    /// The coordinate and the sources are not used.
    pub fn report_mismatch_hint(
        &mut self,
        hint_code: &str,
        message: String,
        _element_coordinate: &str,
        _sources: &HashMap<String, String>,
    )
        ensures
            final(self).hint_texts() == old(self).hint_texts().push(
                entry_text(hint_code@, message@),
            ),
            final(self).error_texts() == old(self).error_texts(),
            final(self).state() == after_report(
                old(self).state(),
                ReportEvent::Hint { code: hint_code@, message: message@ },
            ),
    {
        let entry = format_entry(hint_code, message.as_str());
        self.hints.push(entry);
        assert(self.hint_texts() =~= old(self).hint_texts().push(
            entry_text(hint_code@, message@),
        ));
    }

    /// The errors reported so far, oldest first.
    pub fn errors(&self) -> (errors: &[String])
        ensures
            errors@.map_values(|s: String| s@) == self.error_texts(),
    {
        self.errors.as_slice()
    }

    /// The hints reported so far, oldest first.
    pub fn hints(&self) -> (hints: &[String])
        ensures
            hints@.map_values(|s: String| s@) == self.hint_texts(),
    {
        self.hints.as_slice()
    }

    /// Whether any error has been reported.
    pub fn has_errors(&self) -> (any: bool)
        ensures
            any == (self.error_texts().len() > 0),
    {
        !self.errors.is_empty()
    }

    /// Whether any hint has been reported.
    pub fn has_hints(&self) -> (any: bool)
        ensures
            any == (self.hint_texts().len() > 0),
    {
        !self.hints.is_empty()
    }

    /// Forgets every error and hint.
    pub fn clear(&mut self)
        ensures
            final(self).error_texts() == Seq::<Seq<char>>::empty(),
            final(self).hint_texts() == Seq::<Seq<char>>::empty(),
    {
        self.errors.clear();
        self.hints.clear();
        assert(self.error_texts() =~= Seq::<Seq<char>>::empty());
        assert(self.hint_texts() =~= Seq::<Seq<char>>::empty());
    }
}

impl Default for MismatchReporter {
    fn default() -> (reporter: Self)
        ensures
            reporter.error_texts() == Seq::<Seq<char>>::empty(),
            reporter.hint_texts() == Seq::<Seq<char>>::empty(),
    {
        Self::new()
    }
}

/// A reported entry reads `[`, the code, `] `, then the message.
pub proof fn law_entry_layout(code: Seq<char>, message: Seq<char>)
    ensures
        ({
            let e = entry_text(code, message);
            let c = code.len() as int;
            let m = message.len() as int;
            &&& e.len() == c + m + 3
            &&& e[0] == '['
            &&& e.subrange(1, c + 1) == code
            &&& e[c + 1] == ']'
            &&& e[c + 2] == ' '
            &&& e.subrange(c + 3, c + m + 3) == message
        }),
{
    let e = entry_text(code, message);
    let c = code.len() as int;
    let m = message.len() as int;
    assert(e.subrange(1, c + 1) =~= code);
    assert(e.subrange(c + 3, c + m + 3) =~= message);
}

/// After an error is reported, the errors are non-empty and end with it; the
/// errors reported before stay in place, in order.
pub proof fn law_reported_error_is_last(before: Seq<Seq<char>>, code: Seq<char>, message: Seq<char>)
    ensures
        before.push(entry_text(code, message)).len() > 0,
        before.push(entry_text(code, message)).last() == entry_text(code, message),
        before.push(entry_text(code, message)).subrange(0, before.len() as int) == before,
{
    assert(before.push(entry_text(code, message)).subrange(0, before.len() as int) =~= before);
}

/// Reports accumulate in order. Start from an empty reporter (as `new`,
/// `default` and `clear` leave it) and report the events of `history` one
/// after another, `states[i]` being the reporter's errors and hints before
/// the `i`-th report: then the errors are the entries of the error reports
/// and the hints those of the hint reports, each in the order reported.
pub proof fn law_reports_accumulate(
    states: Seq<(Seq<Seq<char>>, Seq<Seq<char>>)>,
    history: Seq<ReportEvent>,
)
    requires
        states.len() == history.len() + 1,
        states[0] == (Seq::<Seq<char>>::empty(), Seq::<Seq<char>>::empty()),
        forall|i: int|
            0 <= i < history.len() ==> #[trigger] states[i + 1] == after_report(
                states[i],
                history[i],
            ),
    ensures
        states.last() == (errors_of(history), hints_of(history)),
{
    lemma_reports_prefix(states, history, history.len() as int);
    assert(history.take(history.len() as int) =~= history);
}

/// After the first `k` reports the reporter holds the entries of those `k`.
proof fn lemma_reports_prefix(
    states: Seq<(Seq<Seq<char>>, Seq<Seq<char>>)>,
    history: Seq<ReportEvent>,
    k: int,
)
    requires
        states.len() == history.len() + 1,
        states[0] == (Seq::<Seq<char>>::empty(), Seq::<Seq<char>>::empty()),
        forall|i: int|
            0 <= i < history.len() ==> #[trigger] states[i + 1] == after_report(
                states[i],
                history[i],
            ),
        0 <= k <= history.len(),
    ensures
        states[k] == (errors_of(history.take(k)), hints_of(history.take(k))),
    decreases k,
{
    if k == 0 {
        assert(history.take(0) =~= Seq::<ReportEvent>::empty());
    } else {
        lemma_reports_prefix(states, history, k - 1);
        let prefix = history.take(k);
        assert(prefix.drop_last() =~= history.take(k - 1));
        assert(prefix.last() == history[k - 1]);
        assert(states[(k - 1) + 1] == after_report(states[k - 1], history[k - 1]));
    }
}

} // verus!
