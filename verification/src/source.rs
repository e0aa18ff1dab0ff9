//! The pod source: how the cluster query is asked, and what its outcome
//! means for the run.

use crate::error::ReportError;
use crate::text::texts;
use vstd::prelude::*;

verus! {

/// The arguments of the cluster query that come before any namespace
/// selector: list the pods, as JSON.
pub open spec fn base_arguments() -> Seq<Seq<char>> {
    seq![
        seq!['g', 'e', 't'],
        seq!['p', 'o', 'd', 's'],
        seq!['-', 'o', '=', 'j', 's', 'o', 'n'],
    ]
}

/// The option that selects a namespace.
pub open spec fn namespace_option() -> Seq<char> {
    seq!['-', '-', 'n', 'a', 'm', 'e', 's', 'p', 'a', 'c', 'e', '=']
}

/// The arguments of the cluster query. An empty namespace selects
/// nothing, which leaves the query in the default namespace scope.
pub open spec fn query_arguments(namespace: Seq<char>) -> Seq<Seq<char>> {
    if namespace.len() == 0 {
        base_arguments()
    } else {
        base_arguments().push(namespace_option() + namespace)
    }
}

/// The arguments with which the cluster query tool is called.
pub fn source_arguments(namespace: &str) -> (r: Vec<String>)
    ensures
        texts(r@) == query_arguments(namespace@),
{
    proof {
        reveal_strlit("get");
        reveal_strlit("pods");
        reveal_strlit("-o=json");
        reveal_strlit("--namespace=");
        assert("get"@ =~= base_arguments()[0]);
        assert("pods"@ =~= base_arguments()[1]);
        assert("-o=json"@ =~= base_arguments()[2]);
        assert("--namespace="@ =~= namespace_option());
    }
    let mut arguments: Vec<String> = Vec::new();
    arguments.push("get".to_owned());
    arguments.push("pods".to_owned());
    arguments.push("-o=json".to_owned());
    assert(texts(arguments@) =~= base_arguments());
    if !namespace.is_empty() {
        let mut selector = "--namespace=".to_owned();
        selector.append(namespace);
        arguments.push(selector);
        assert(texts(arguments@) =~= query_arguments(namespace@));
    }
    arguments
}

/// What the outcome of the pod source means for the run: a source that
/// reported failure with an exit code stops the run with that code; any
/// other outcome lets the run go on with what the source printed.
pub open spec fn source_verdict(succeeded: bool, code: Option<i32>) -> Result<(), ReportError> {
    if !succeeded && code is Some {
        Err(ReportError::SourceFailed(code->0))
    } else {
        Ok(())
    }
}

/// Judges the outcome of the pod source.
pub fn judge_source(succeeded: bool, code: Option<i32>) -> (r: Result<(), ReportError>)
    ensures
        r == source_verdict(succeeded, code),
{
    if succeeded {
        Ok(())
    } else {
        match code {
            Some(c) => Err(ReportError::SourceFailed(c)),
            None => Ok(()),
        }
    }
}

} // verus!
