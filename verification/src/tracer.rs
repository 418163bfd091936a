//! The snapshot tracer: renders a value before and after a computation,
//! diffs the two renderings, and reports the script to a sink.
//!
//! The computation's own result is always returned untouched, and when the
//! computation fails nothing is reported: the failure propagates with the
//! after-snapshot, the diff, and the report all skipped.

use vstd::prelude::*;

use crate::engine::diff;
use crate::engine::spec_diff;
use crate::script::ClassifiedLine;
use crate::script::ClassifiedLineView;

verus! {

/// A value that can render itself as a sequence of text lines.
///
/// `lines_spec` is the mathematical statement of that rendering, and
/// `render` must produce exactly it. Rendering is therefore deterministic
/// for a fixed value state: two renders of an unchanged value yield the
/// same lines, so their diff is all-common.
pub trait Render {
    spec fn lines_spec(&self) -> Seq<Seq<char>>;

    fn render(&self) -> (lines: Vec<String>)
        ensures
            lines.deep_view() == self.lines_spec(),
    ;
}

/// A reporting sink: receives each edit script in turn.
///
/// `log` is the sequence of scripts received so far; `report` appends one.
pub trait Sink {
    spec fn log(&self) -> Seq<Seq<ClassifiedLineView>>;

    fn report(&mut self, script: Vec<ClassifiedLine>)
        ensures
            final(self).log() == old(self).log().push(script.deep_view()),
    ;
}

/// A sink that keeps every script it receives, in order, for later
/// inspection or presentation.
pub struct ReportLog {
    pub scripts: Vec<Vec<ClassifiedLine>>,
}

impl ReportLog {
    /// An empty log.
    pub fn new() -> (log: ReportLog)
        ensures
            log.log() == Seq::<Seq<ClassifiedLineView>>::empty(),
    {
        let log = ReportLog { scripts: Vec::new() };
        proof {
            assert(log.scripts.deep_view() =~= Seq::<Seq<ClassifiedLineView>>::empty());
        }
        log
    }
}

impl Sink for ReportLog {
    open spec fn log(&self) -> Seq<Seq<ClassifiedLineView>> {
        self.scripts.deep_view()
    }

    fn report(&mut self, script: Vec<ClassifiedLine>) {
        let ghost pre = self.scripts.deep_view();
        let ghost sv = script.deep_view();
        self.scripts.push(script);
        proof {
            assert(self.scripts.deep_view() =~= pre.push(sv));
        }
    }
}

/// The identity rendering: a value that already is a sequence of lines
/// renders as itself.
impl Render for Vec<String> {
    open spec fn lines_spec(&self) -> Seq<Seq<char>> {
        self.deep_view()
    }

    fn render(&self) -> (lines: Vec<String>) {
        let mut lines: Vec<String> = Vec::new();
        let mut k: usize = 0;
        while k < self.len()
            invariant
                k <= self@.len(),
                lines@.len() == k,
                forall|p: int| 0 <= p < k ==> (#[trigger] lines@[p])@ == self@[p]@,
            decreases self@.len() - k,
        {
            lines.push(self[k].clone());
            k = k + 1;
        }
        proof {
            assert(lines.deep_view() =~= self.deep_view());
        }
        lines
    }
}

/// Render `value`, run `computation` on it, render what it left behind,
/// diff the two renderings, and hand the script to `sink`. The pair the
/// computation produced — the value and its result — is returned exactly
/// as the computation would have returned it when called directly.
pub fn trace<V: Render, T, C: FnOnce(V) -> (V, T), S: Sink>(
    value: V,
    computation: C,
    sink: &mut S,
) -> (out: (V, T))
    requires
        call_requires(computation, (value,)),
    ensures
        call_ensures(computation, (value,), out),
        final(sink).log() == old(sink).log().push(
            spec_diff(value.lines_spec(), out.0.lines_spec()),
        ),
{
    let before = value.render();
    let (changed, result) = computation(value);
    let after = changed.render();
    let script = diff(&before, &after);
    sink.report(script);
    (changed, result)
}

/// Like [`trace`], for a computation that can fail. On failure the error
/// propagates unchanged and nothing is reported: the after-snapshot, the
/// diff, and the report are all skipped, and the sink's log is untouched.
pub fn try_trace<V: Render, T, E, C: FnOnce(V) -> (V, Result<T, E>), S: Sink>(
    value: V,
    computation: C,
    sink: &mut S,
) -> (out: (V, Result<T, E>))
    requires
        call_requires(computation, (value,)),
    ensures
        call_ensures(computation, (value,), out),
        out.1 is Ok ==> final(sink).log() == old(sink).log().push(
            spec_diff(value.lines_spec(), out.0.lines_spec()),
        ),
        out.1 is Err ==> final(sink).log() == old(sink).log(),
{
    let before = value.render();
    let (changed, result) = computation(value);
    match result {
        Ok(produced) => {
            let after = changed.render();
            let script = diff(&before, &after);
            sink.report(script);
            (changed, Ok(produced))
        },
        Err(failure) => (changed, Err(failure)),
    }
}

} // verus!
