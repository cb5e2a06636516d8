//! The failure taxonomy of a run, and the text a failure surfaces.

use vstd::prelude::*;

use crate::bytes::spec_contains;

verus! {

/// One failure of a build run.
///
/// Names, messages and paths are carried as raw bytes; callers render
/// them.
#[derive(Debug)]
pub enum ClientError {
    /// The worker could not be reached, or the handshake failed.
    Connection { detail: Vec<u8> },
    /// A malformed or unrecognized frame arrived.
    Protocol { detail: Vec<u8> },
    /// The source archive could not be produced. Resubmission cannot
    /// fix a missing file, so this failure is never retried.
    Archive { detail: Vec<u8> },
    /// The worker reported a failed build for a unit.
    ServerBuild { unit_name: Vec<u8>, message: Vec<u8> },
    /// A round trip exceeded the configured bound.
    Timeout,
    /// The dependency graph has a cycle; the named package is one no
    /// safe order can place — it lies on a cycle or depends on one.
    GraphCycle { package: Vec<u8> },
}

/// The mathematical value of a [`ClientError`].
pub enum ClientErrorModel {
    Connection { detail: Seq<u8> },
    Protocol { detail: Seq<u8> },
    Archive { detail: Seq<u8> },
    ServerBuild { unit_name: Seq<u8>, message: Seq<u8> },
    Timeout,
    GraphCycle { package: Seq<u8> },
}

impl View for ClientError {
    type V = ClientErrorModel;

    open spec fn view(&self) -> ClientErrorModel {
        match self {
            ClientError::Connection { detail } => ClientErrorModel::Connection { detail: detail@ },
            ClientError::Protocol { detail } => ClientErrorModel::Protocol { detail: detail@ },
            ClientError::Archive { detail } => ClientErrorModel::Archive { detail: detail@ },
            ClientError::ServerBuild { unit_name, message } => ClientErrorModel::ServerBuild {
                unit_name: unit_name@,
                message: message@,
            },
            ClientError::Timeout => ClientErrorModel::Timeout,
            ClientError::GraphCycle { package } => ClientErrorModel::GraphCycle {
                package: package@,
            },
        }
    }
}

/// Is the failure one that retrying the unit can never fix?
///
/// A missing or unreadable source file stays missing on resubmission,
/// and a cyclic dependency graph stays cyclic, so archive and cycle
/// failures end the run at once. Everything else is retried within the
/// attempt budget.
pub open spec fn spec_fatal(e: ClientErrorModel) -> bool {
    match e {
        ClientErrorModel::Archive { .. } => true,
        ClientErrorModel::GraphCycle { .. } => true,
        _ => false,
    }
}

impl ClientError {
    /// Is the failure one that retrying the unit can never fix?
    pub fn is_fatal(&self) -> (r: bool)
        ensures
            r == spec_fatal(self@),
    {
        match self {
            ClientError::Archive { .. } => true,
            ClientError::GraphCycle { .. } => true,
            _ => false,
        }
    }
}

/// The text `connection error: `.
pub open spec fn txt_connection() -> Seq<u8> {
    seq![99u8, 111, 110, 110, 101, 99, 116, 105, 111, 110, 32, 101, 114, 114, 111, 114, 58, 32]
}

/// The text `protocol error: `.
pub open spec fn txt_protocol() -> Seq<u8> {
    seq![112u8, 114, 111, 116, 111, 99, 111, 108, 32, 101, 114, 114, 111, 114, 58, 32]
}

/// The text `archive error: `.
pub open spec fn txt_archive() -> Seq<u8> {
    seq![97u8, 114, 99, 104, 105, 118, 101, 32, 101, 114, 114, 111, 114, 58, 32]
}

/// The text `build failed for `.
pub open spec fn txt_build_failed() -> Seq<u8> {
    seq![98u8, 117, 105, 108, 100, 32, 102, 97, 105, 108, 101, 100, 32, 102, 111, 114, 32]
}

/// The text `: `.
pub open spec fn txt_sep() -> Seq<u8> {
    seq![58u8, 32]
}

/// The text `request timed out`.
pub open spec fn txt_timeout() -> Seq<u8> {
    seq![114u8, 101, 113, 117, 101, 115, 116, 32, 116, 105, 109, 101, 100, 32, 111, 117, 116]
}

/// The text `dependency cycle involving `.
pub open spec fn txt_cycle() -> Seq<u8> {
    seq![
        100u8, 101, 112, 101, 110, 100, 101, 110, 99, 121, 32, 99, 121, 99, 108, 101, 32, 105,
        110, 118, 111, 108, 118, 105, 110, 103, 32,
    ]
}

/// The one line of text a failure surfaces: its kind, then the names
/// and the underlying cause it must not swallow.
pub open spec fn spec_describe(e: ClientErrorModel) -> Seq<u8> {
    match e {
        ClientErrorModel::Connection { detail } => txt_connection() + detail,
        ClientErrorModel::Protocol { detail } => txt_protocol() + detail,
        ClientErrorModel::Archive { detail } => txt_archive() + detail,
        ClientErrorModel::ServerBuild { unit_name, message } => txt_build_failed() + unit_name
            + txt_sep() + message,
        ClientErrorModel::Timeout => txt_timeout(),
        ClientErrorModel::GraphCycle { package } => txt_cycle() + package,
    }
}

fn push_text(out: &mut Vec<u8>, t: &[u8])
    ensures
        final(out)@ == old(out)@ + t@,
{
    crate::bytes::extend_bytes(out, t);
}

impl ClientError {
    /// The line of text this failure surfaces to the user.
    pub fn describe(&self) -> (r: Vec<u8>)
        ensures
            r@ == spec_describe(self@),
    {
        let mut out: Vec<u8> = Vec::new();
        match self {
            ClientError::Connection { detail } => {
                let head: Vec<u8> = vec![
                    99u8, 111, 110, 110, 101, 99, 116, 105, 111, 110, 32, 101, 114, 114, 111,
                    114, 58, 32,
                ];
                proof {
                    assert(head@ =~= txt_connection());
                }
                push_text(&mut out, head.as_slice());
                push_text(&mut out, detail.as_slice());
            },
            ClientError::Protocol { detail } => {
                let head: Vec<u8> = vec![
                    112u8, 114, 111, 116, 111, 99, 111, 108, 32, 101, 114, 114, 111, 114, 58, 32,
                ];
                proof {
                    assert(head@ =~= txt_protocol());
                }
                push_text(&mut out, head.as_slice());
                push_text(&mut out, detail.as_slice());
            },
            ClientError::Archive { detail } => {
                let head: Vec<u8> = vec![
                    97u8, 114, 99, 104, 105, 118, 101, 32, 101, 114, 114, 111, 114, 58, 32,
                ];
                proof {
                    assert(head@ =~= txt_archive());
                }
                push_text(&mut out, head.as_slice());
                push_text(&mut out, detail.as_slice());
            },
            ClientError::ServerBuild { unit_name, message } => {
                let head: Vec<u8> = vec![
                    98u8, 117, 105, 108, 100, 32, 102, 97, 105, 108, 101, 100, 32, 102, 111, 114,
                    32,
                ];
                proof {
                    assert(head@ =~= txt_build_failed());
                }
                push_text(&mut out, head.as_slice());
                push_text(&mut out, unit_name.as_slice());
                let sep: Vec<u8> = vec![58u8, 32];
                proof {
                    assert(sep@ =~= txt_sep());
                }
                push_text(&mut out, sep.as_slice());
                push_text(&mut out, message.as_slice());
            },
            ClientError::Timeout => {
                let head: Vec<u8> = vec![
                    114u8, 101, 113, 117, 101, 115, 116, 32, 116, 105, 109, 101, 100, 32, 111,
                    117, 116,
                ];
                proof {
                    assert(head@ =~= txt_timeout());
                }
                push_text(&mut out, head.as_slice());
            },
            ClientError::GraphCycle { package } => {
                let head: Vec<u8> = vec![
                    100u8, 101, 112, 101, 110, 100, 101, 110, 99, 121, 32, 99, 121, 99, 108, 101,
                    32, 105, 110, 118, 111, 108, 118, 105, 110, 103, 32,
                ];
                proof {
                    assert(head@ =~= txt_cycle());
                }
                push_text(&mut out, head.as_slice());
                push_text(&mut out, package.as_slice());
            },
        }
        proof {
            assert(out@ =~= spec_describe(self@));
        }
        out
    }
}

/// A failure's text carries the package name and the underlying cause:
/// a worker-reported build failure names the failing unit and the
/// worker's message, and a cycle failure names a package on the cycle.
pub proof fn lemma_describe_names_failure(e: ClientErrorModel)
    ensures
        e matches ClientErrorModel::ServerBuild { unit_name, message } ==> spec_contains(
            spec_describe(e),
            unit_name,
        ) && spec_contains(spec_describe(e), message),
        e matches ClientErrorModel::GraphCycle { package } ==> spec_contains(
            spec_describe(e),
            package,
        ),
{
    match e {
        ClientErrorModel::ServerBuild { unit_name, message } => {
            let d = spec_describe(e);
            let at_name = txt_build_failed().len() as int;
            assert(d.subrange(at_name, at_name + unit_name.len()) =~= unit_name);
            let at_msg = (txt_build_failed().len() + unit_name.len() + txt_sep().len()) as int;
            assert(d.subrange(at_msg, at_msg + message.len()) =~= message);
            assert(crate::bytes::spec_occurs_at(d, unit_name, at_name));
            assert(crate::bytes::spec_occurs_at(d, message, at_msg));
        },
        ClientErrorModel::GraphCycle { package } => {
            let d = spec_describe(e);
            let at = txt_cycle().len() as int;
            assert(d.subrange(at, at + package.len()) =~= package);
            assert(crate::bytes::spec_occurs_at(d, package, at));
        },
        _ => {},
    }
}

} // verus!
