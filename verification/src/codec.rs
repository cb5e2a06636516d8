//! The wire codec: the request and response messages of the build
//! protocol, their tagged binary encoding, and length-prefixed framing.
//!
//! Every message is encoded as a tag byte followed by its fields; byte
//! strings and lists carry a four-byte big-endian length or count in
//! front. Decoding either reproduces the encoded message exactly or
//! fails; an unrecognized tag never passes silently.

use vstd::prelude::*;

use crate::bytes::views;

verus! {

/// One package's compilation request: its name, the names it depends
/// on, its source files, and the artifact names its build produces.
///
/// Identity is the package name; a unit is created once at discovery
/// and copied per attempt, never changed.
pub struct BuildUnit {
    pub package_name: Vec<u8>,
    pub dependencies: Vec<Vec<u8>>,
    pub source_files: Vec<Vec<u8>>,
    pub artifacts: Vec<Vec<u8>>,
}

/// The mathematical value of a [`BuildUnit`].
pub struct BuildUnitModel {
    pub package_name: Seq<u8>,
    pub dependencies: Seq<Seq<u8>>,
    pub source_files: Seq<Seq<u8>>,
    pub artifacts: Seq<Seq<u8>>,
}

impl View for BuildUnit {
    type V = BuildUnitModel;

    open spec fn view(&self) -> BuildUnitModel {
        BuildUnitModel {
            package_name: self.package_name@,
            dependencies: views(self.dependencies@),
            source_files: views(self.source_files@),
            artifacts: views(self.artifacts@),
        }
    }
}

impl BuildUnit {
    /// A field-for-field copy of the unit.
    pub fn duplicate(&self) -> (r: Self)
        ensures
            r@ == self@,
    {
        let r = BuildUnit {
            package_name: crate::bytes::to_vec(self.package_name.as_slice()),
            dependencies: copy_list(&self.dependencies),
            source_files: copy_list(&self.source_files),
            artifacts: copy_list(&self.artifacts),
        };
        assert(r@ =~~= self@);
        r
    }
}

/// A field-for-field copy of a list of byte strings.
pub fn copy_list(v: &Vec<Vec<u8>>) -> (r: Vec<Vec<u8>>)
    ensures
        views(r@) == views(v@),
{
    let mut out: Vec<Vec<u8>> = Vec::new();
    let n = v.len();
    let mut i: usize = 0;
    while i < n
        invariant
            n == v.len(),
            0 <= i <= n,
            views(out@) == views(v@).take(i as int),
        decreases n - i,
    {
        let c = crate::bytes::to_vec(v[i].as_slice());
        proof {
            assert(views(out@.push(c)) =~~= views(out@) + seq![c@]);
            assert(views(v@).take(i as int) + seq![v@[i as int]@] =~~= views(v@).take(i + 1));
        }
        out.push(c);
        i = i + 1;
    }
    proof {
        assert(views(out@) =~~= views(v@));
    }
    out
}

/// One returned artifact: a path relative to the profile directory and
/// the artifact's bytes. Ephemeral; not retained past materialization.
pub struct ArtifactRef {
    pub rel_path: Vec<u8>,
    pub data: Vec<u8>,
}

/// The mathematical value of an [`ArtifactRef`].
pub struct ArtifactModel {
    pub rel_path: Seq<u8>,
    pub data: Seq<u8>,
}

impl View for ArtifactRef {
    type V = ArtifactModel;

    open spec fn view(&self) -> ArtifactModel {
        ArtifactModel { rel_path: self.rel_path@, data: self.data@ }
    }
}

/// The views of a list of artifacts.
pub open spec fn artifact_views(v: Seq<ArtifactRef>) -> Seq<ArtifactModel> {
    v.map_values(|a: ArtifactRef| a@)
}

/// A request sent by the client to a worker.
pub enum Request {
    /// The liveness check exchanged before real work is submitted.
    Heartbeat,
    /// One build unit together with the release flag, the optional
    /// target triple, and the compressed source archive.
    BuildUnit { unit: BuildUnit, release: bool, target: Option<Vec<u8>>, archive: Vec<u8> },
}

/// The mathematical value of a [`Request`].
pub enum RequestModel {
    Heartbeat,
    BuildUnit { unit: BuildUnitModel, release: bool, target: Option<Seq<u8>>, archive: Seq<u8> },
}

impl View for Request {
    type V = RequestModel;

    open spec fn view(&self) -> RequestModel {
        match self {
            Request::Heartbeat => RequestModel::Heartbeat,
            Request::BuildUnit { unit, release, target, archive } => RequestModel::BuildUnit {
                unit: unit@,
                release: *release,
                target: match target {
                    Option::Some(t) => Option::Some(t@),
                    Option::None => Option::None,
                },
                archive: archive@,
            },
        }
    }
}

/// A response sent by a worker to the client.
///
/// Zero or more `BuildOutput` lines stream in; exactly one of
/// `BuildComplete` or `BuildError` ends a unit's session.
pub enum Response {
    /// The answer to a heartbeat.
    HeartbeatAck,
    /// One streamed line of build output, marked as error output or not.
    BuildOutput { unit_name: Vec<u8>, line: Vec<u8>, is_error: bool },
    /// The successful end of a unit's build, with its artifacts.
    BuildComplete { unit_name: Vec<u8>, artifacts: Vec<ArtifactRef> },
    /// The failed end of a unit's build, with the worker's message.
    BuildError { unit_name: Vec<u8>, message: Vec<u8> },
}

/// The mathematical value of a [`Response`].
pub enum ResponseModel {
    HeartbeatAck,
    BuildOutput { unit_name: Seq<u8>, line: Seq<u8>, is_error: bool },
    BuildComplete { unit_name: Seq<u8>, artifacts: Seq<ArtifactModel> },
    BuildError { unit_name: Seq<u8>, message: Seq<u8> },
}

impl View for Response {
    type V = ResponseModel;

    open spec fn view(&self) -> ResponseModel {
        match self {
            Response::HeartbeatAck => ResponseModel::HeartbeatAck,
            Response::BuildOutput { unit_name, line, is_error } => ResponseModel::BuildOutput {
                unit_name: unit_name@,
                line: line@,
                is_error: *is_error,
            },
            Response::BuildComplete { unit_name, artifacts } => ResponseModel::BuildComplete {
                unit_name: unit_name@,
                artifacts: artifact_views(artifacts@),
            },
            Response::BuildError { unit_name, message } => ResponseModel::BuildError {
                unit_name: unit_name@,
                message: message@,
            },
        }
    }
}

/// The exclusive bound on every encoded length: lengths travel as four
/// big-endian bytes.
pub const LEN_LIMIT: u64 = 0x100000000;

/// Can this byte string's length travel in a four-byte prefix?
pub open spec fn wf_bytes(v: Seq<u8>) -> bool {
    v.len() < LEN_LIMIT
}

/// Can this list's count and every element travel behind four-byte prefixes?
pub open spec fn wf_list(l: Seq<Seq<u8>>) -> bool {
    l.len() < LEN_LIMIT && forall|i: int| 0 <= i < l.len() ==> wf_bytes(#[trigger] l[i])
}

/// Is every field of the unit small enough to encode?
pub open spec fn wf_unit(u: BuildUnitModel) -> bool {
    wf_bytes(u.package_name) && wf_list(u.dependencies) && wf_list(u.source_files) && wf_list(
        u.artifacts,
    )
}

/// Is every field of the request small enough to encode?
pub open spec fn wf_request(m: RequestModel) -> bool {
    match m {
        RequestModel::Heartbeat => true,
        RequestModel::BuildUnit { unit, release, target, archive } => wf_unit(unit) && (match target {
            Option::Some(t) => wf_bytes(t),
            Option::None => true,
        }) && wf_bytes(archive),
    }
}

/// Is every field of the response small enough to encode?
pub open spec fn wf_response(m: ResponseModel) -> bool {
    match m {
        ResponseModel::HeartbeatAck => true,
        ResponseModel::BuildOutput { unit_name, line, is_error } => wf_bytes(unit_name) && wf_bytes(
            line,
        ),
        ResponseModel::BuildComplete { unit_name, artifacts } => wf_bytes(unit_name)
            && artifacts.len() < LEN_LIMIT && forall|i: int|
            0 <= i < artifacts.len() ==> wf_bytes(#[trigger] artifacts[i].rel_path) && wf_bytes(
                artifacts[i].data,
            ),
        ResponseModel::BuildError { unit_name, message } => wf_bytes(unit_name) && wf_bytes(
            message,
        ),
    }
}

/// The four big-endian bytes of a length in `[0, LEN_LIMIT)`.
pub open spec fn spec_enc_len(n: int) -> Seq<u8> {
    seq![
        (n / 16777216 % 256) as u8,
        (n / 65536 % 256) as u8,
        (n / 256 % 256) as u8,
        (n % 256) as u8,
    ]
}

/// The value of four big-endian length bytes.
pub open spec fn spec_dec_len(b0: u8, b1: u8, b2: u8, b3: u8) -> int {
    ((b0 * 256 + b1) * 256 + b2) * 256 + b3
}

/// Reading back the four bytes of a length yields the length.
pub proof fn lemma_len_round_trip(n: int)
    requires
        0 <= n < LEN_LIMIT,
    ensures
        spec_dec_len(
            spec_enc_len(n)[0],
            spec_enc_len(n)[1],
            spec_enc_len(n)[2],
            spec_enc_len(n)[3],
        ) == n,
{
    let b0 = n / 16777216 % 256;
    let b1 = n / 65536 % 256;
    let b2 = n / 256 % 256;
    let b3 = n % 256;
    assert(((b0 * 256 + b1) * 256 + b2) * 256 + b3 == n) by (nonlinear_arith)
        requires
            0 <= n < 0x100000000,
            b0 == n / 16777216 % 256,
            b1 == n / 65536 % 256,
            b2 == n / 256 % 256,
            b3 == n % 256,
    ;
}

/// A byte string on the wire: its length, then its bytes.
pub open spec fn spec_enc_bytes(v: Seq<u8>) -> Seq<u8> {
    spec_enc_len(v.len() as int) + v
}

/// The elements of a list on the wire, one after the other.
pub open spec fn spec_enc_items(l: Seq<Seq<u8>>) -> Seq<u8>
    decreases l.len(),
{
    if l.len() == 0 {
        Seq::empty()
    } else {
        spec_enc_bytes(l[0]) + spec_enc_items(l.skip(1))
    }
}

/// A list on the wire: its count, then its elements.
pub open spec fn spec_enc_list(l: Seq<Seq<u8>>) -> Seq<u8> {
    spec_enc_len(l.len() as int) + spec_enc_items(l)
}

/// A boolean on the wire: one byte, `0` or `1`.
pub open spec fn spec_enc_bool(b: bool) -> Seq<u8> {
    if b {
        seq![1u8]
    } else {
        seq![0u8]
    }
}

/// An optional byte string on the wire: a presence byte, then the string.
pub open spec fn spec_enc_opt(t: Option<Seq<u8>>) -> Seq<u8> {
    match t {
        Option::Some(v) => seq![1u8] + spec_enc_bytes(v),
        Option::None => seq![0u8],
    }
}

/// A build unit on the wire: name, dependencies, sources, artifacts.
pub open spec fn spec_enc_unit(u: BuildUnitModel) -> Seq<u8> {
    spec_enc_bytes(u.package_name) + spec_enc_list(u.dependencies) + spec_enc_list(u.source_files)
        + spec_enc_list(u.artifacts)
}

/// One artifact on the wire: its relative path, then its bytes.
pub open spec fn spec_enc_artifact(a: ArtifactModel) -> Seq<u8> {
    spec_enc_bytes(a.rel_path) + spec_enc_bytes(a.data)
}

/// The artifacts of a completed build, one after the other.
pub open spec fn spec_enc_artifact_items(l: Seq<ArtifactModel>) -> Seq<u8>
    decreases l.len(),
{
    if l.len() == 0 {
        Seq::empty()
    } else {
        spec_enc_artifact(l[0]) + spec_enc_artifact_items(l.skip(1))
    }
}

/// The request tag bytes.
pub const TAG_HEARTBEAT: u8 = 0;

/// Tag of a request that carries a build unit.
pub const TAG_BUILD_UNIT: u8 = 1;

/// The response tag bytes.
pub const TAG_HEARTBEAT_ACK: u8 = 0;

/// Tag of a streamed output line.
pub const TAG_BUILD_OUTPUT: u8 = 1;

/// Tag of a successful terminal response.
pub const TAG_BUILD_COMPLETE: u8 = 2;

/// Tag of a failed terminal response.
pub const TAG_BUILD_ERROR: u8 = 3;

/// A request on the wire: its tag, then its fields.
pub open spec fn spec_encode_request(m: RequestModel) -> Seq<u8> {
    match m {
        RequestModel::Heartbeat => seq![TAG_HEARTBEAT],
        RequestModel::BuildUnit { unit, release, target, archive } => seq![TAG_BUILD_UNIT]
            + spec_enc_unit(unit) + spec_enc_bool(release) + spec_enc_opt(target) + spec_enc_bytes(
            archive,
        ),
    }
}

/// A response on the wire: its tag, then its fields.
pub open spec fn spec_encode_response(m: ResponseModel) -> Seq<u8> {
    match m {
        ResponseModel::HeartbeatAck => seq![TAG_HEARTBEAT_ACK],
        ResponseModel::BuildOutput { unit_name, line, is_error } => seq![TAG_BUILD_OUTPUT]
            + spec_enc_bytes(unit_name) + spec_enc_bytes(line) + spec_enc_bool(is_error),
        ResponseModel::BuildComplete { unit_name, artifacts } => seq![TAG_BUILD_COMPLETE]
            + spec_enc_bytes(unit_name) + spec_enc_len(artifacts.len() as int)
            + spec_enc_artifact_items(artifacts),
        ResponseModel::BuildError { unit_name, message } => seq![TAG_BUILD_ERROR] + spec_enc_bytes(
            unit_name,
        ) + spec_enc_bytes(message),
    }
}

/// Append the four big-endian bytes of `n`.
fn push_len(out: &mut Vec<u8>, n: u64)
    requires
        n < LEN_LIMIT,
    ensures
        final(out)@ == old(out)@ + spec_enc_len(n as int),
{
    out.push((n / 16777216 % 256) as u8);
    out.push((n / 65536 % 256) as u8);
    out.push((n / 256 % 256) as u8);
    out.push((n % 256) as u8);
    proof {
        assert(out@ =~= old(out)@ + spec_enc_len(n as int));
    }
}

/// Append a length-prefixed byte string.
fn push_bytes(out: &mut Vec<u8>, v: &[u8])
    requires
        wf_bytes(v@),
    ensures
        final(out)@ == old(out)@ + spec_enc_bytes(v@),
{
    push_len(out, v.len() as u64);
    crate::bytes::extend_bytes(out, v);
    proof {
        assert(out@ =~= old(out)@ + spec_enc_bytes(v@));
    }
}

/// Append a count-prefixed list of byte strings.
fn push_list(out: &mut Vec<u8>, l: &Vec<Vec<u8>>)
    requires
        wf_list(views(l@)),
    ensures
        final(out)@ == old(out)@ + spec_enc_list(views(l@)),
{
    let ghost lv = views(l@);
    push_len(out, l.len() as u64);
    let n = l.len();
    let mut i: usize = 0;
    proof {
        assert(lv.skip(0) =~~= lv);
    }
    while i < n
        invariant
            n == l.len(),
            0 <= i <= n,
            views(l@) == lv,
            lv.len() == n,
            wf_list(lv),
            out@ + spec_enc_items(lv.skip(i as int)) == old(out)@ + spec_enc_len(n as int)
                + spec_enc_items(lv),
        decreases n - i,
    {
        proof {
            assert(lv.skip(i as int)[0] == lv[i as int]);
            assert(lv.skip(i as int).skip(1) =~~= lv.skip(i + 1));
        }
        push_bytes(out, l[i].as_slice());
        i = i + 1;
    }
    proof {
        assert(spec_enc_items(lv.skip(n as int)) =~= Seq::<u8>::empty());
        assert(out@ =~= old(out)@ + spec_enc_list(lv));
    }
}

/// Append the one-byte encoding of a boolean.
fn push_bool(out: &mut Vec<u8>, b: bool)
    ensures
        final(out)@ == old(out)@ + spec_enc_bool(b),
{
    if b {
        out.push(1u8);
    } else {
        out.push(0u8);
    }
    proof {
        assert(out@ =~= old(out)@ + spec_enc_bool(b));
    }
}

/// Encode a request for the wire.
pub fn encode_request(r: &Request) -> (out: Vec<u8>)
    requires
        wf_request(r@),
    ensures
        out@ == spec_encode_request(r@),
{
    let mut out: Vec<u8> = Vec::new();
    match r {
        Request::Heartbeat => {
            out.push(TAG_HEARTBEAT);
            proof {
                assert(out@ =~= spec_encode_request(r@));
            }
        },
        Request::BuildUnit { unit, release, target, archive } => {
            out.push(TAG_BUILD_UNIT);
            push_bytes(&mut out, unit.package_name.as_slice());
            push_list(&mut out, &unit.dependencies);
            push_list(&mut out, &unit.source_files);
            push_list(&mut out, &unit.artifacts);
            push_bool(&mut out, *release);
            match target {
                Option::Some(t) => {
                    out.push(1u8);
                    push_bytes(&mut out, t.as_slice());
                },
                Option::None => {
                    out.push(0u8);
                },
            }
            push_bytes(&mut out, archive.as_slice());
            proof {
                assert(out@ =~= spec_encode_request(r@));
            }
        },
    }
    out
}

/// Encode a response for the wire.
pub fn encode_response(r: &Response) -> (out: Vec<u8>)
    requires
        wf_response(r@),
    ensures
        out@ == spec_encode_response(r@),
{
    let mut out: Vec<u8> = Vec::new();
    match r {
        Response::HeartbeatAck => {
            out.push(TAG_HEARTBEAT_ACK);
            proof {
                assert(out@ =~= spec_encode_response(r@));
            }
        },
        Response::BuildOutput { unit_name, line, is_error } => {
            out.push(TAG_BUILD_OUTPUT);
            push_bytes(&mut out, unit_name.as_slice());
            push_bytes(&mut out, line.as_slice());
            push_bool(&mut out, *is_error);
            proof {
                assert(out@ =~= spec_encode_response(r@));
            }
        },
        Response::BuildComplete { unit_name, artifacts } => {
            out.push(TAG_BUILD_COMPLETE);
            push_bytes(&mut out, unit_name.as_slice());
            push_len(&mut out, artifacts.len() as u64);
            let ghost av = artifact_views(artifacts@);
            let n = artifacts.len();
            let mut i: usize = 0;
            proof {
                assert(av.skip(0) =~~= av);
            }
            while i < n
                invariant
                    n == artifacts.len(),
                    0 <= i <= n,
                    artifact_views(artifacts@) == av,
                    av.len() == n,
                    forall|k: int|
                        0 <= k < n ==> wf_bytes(#[trigger] av[k].rel_path) && wf_bytes(av[k].data),
                    out@ + spec_enc_artifact_items(av.skip(i as int)) == seq![TAG_BUILD_COMPLETE]
                        + spec_enc_bytes(unit_name@) + spec_enc_len(n as int)
                        + spec_enc_artifact_items(av),
                decreases n - i,
            {
                proof {
                    assert(av.skip(i as int)[0] == av[i as int]);
                    assert(av.skip(i as int).skip(1) =~~= av.skip(i + 1));
                }
                push_bytes(&mut out, artifacts[i].rel_path.as_slice());
                push_bytes(&mut out, artifacts[i].data.as_slice());
                i = i + 1;
            }
            proof {
                assert(spec_enc_artifact_items(av.skip(n as int)) =~= Seq::<u8>::empty());
                assert(out@ =~= spec_encode_response(r@));
            }
        },
        Response::BuildError { unit_name, message } => {
            out.push(TAG_BUILD_ERROR);
            push_bytes(&mut out, unit_name.as_slice());
            push_bytes(&mut out, message.as_slice());
            proof {
                assert(out@ =~= spec_encode_response(r@));
            }
        },
    }
    out
}


/// Read a four-byte length from the front of `s`.
pub open spec fn spec_dec_len_at(s: Seq<u8>) -> Option<(int, Seq<u8>)> {
    if s.len() >= 4 {
        Option::Some((spec_dec_len(s[0], s[1], s[2], s[3]), s.skip(4)))
    } else {
        Option::None
    }
}

/// Read a length-prefixed byte string from the front of `s`.
pub open spec fn spec_dec_bytes(s: Seq<u8>) -> Option<(Seq<u8>, Seq<u8>)> {
    match spec_dec_len_at(s) {
        Option::Some((n, t)) => if n <= t.len() {
            Option::Some((t.take(n), t.skip(n)))
        } else {
            Option::None
        },
        Option::None => Option::None,
    }
}

/// Read `cnt` byte strings from the front of `s`.
pub open spec fn spec_dec_items(s: Seq<u8>, cnt: int) -> Option<(Seq<Seq<u8>>, Seq<u8>)>
    decreases cnt,
{
    if cnt <= 0 {
        Option::Some((Seq::empty(), s))
    } else {
        match spec_dec_bytes(s) {
            Option::Some((v, t)) => match spec_dec_items(t, cnt - 1) {
                Option::Some((vs, u)) => Option::Some((seq![v] + vs, u)),
                Option::None => Option::None,
            },
            Option::None => Option::None,
        }
    }
}

/// Read a count-prefixed list of byte strings from the front of `s`.
pub open spec fn spec_dec_list(s: Seq<u8>) -> Option<(Seq<Seq<u8>>, Seq<u8>)> {
    match spec_dec_len_at(s) {
        Option::Some((n, t)) => spec_dec_items(t, n),
        Option::None => Option::None,
    }
}

/// Read a boolean byte from the front of `s`; any byte but `0` or `1` fails.
pub open spec fn spec_dec_bool(s: Seq<u8>) -> Option<(bool, Seq<u8>)> {
    if s.len() >= 1 && s[0] == 1u8 {
        Option::Some((true, s.skip(1)))
    } else if s.len() >= 1 && s[0] == 0u8 {
        Option::Some((false, s.skip(1)))
    } else {
        Option::None
    }
}

/// Read an optional byte string from the front of `s`.
pub open spec fn spec_dec_opt(s: Seq<u8>) -> Option<(Option<Seq<u8>>, Seq<u8>)> {
    if s.len() >= 1 && s[0] == 0u8 {
        Option::Some((Option::None, s.skip(1)))
    } else if s.len() >= 1 && s[0] == 1u8 {
        match spec_dec_bytes(s.skip(1)) {
            Option::Some((v, t)) => Option::Some((Option::Some(v), t)),
            Option::None => Option::None,
        }
    } else {
        Option::None
    }
}

/// Read a build unit from the front of `s`.
pub open spec fn spec_dec_unit(s: Seq<u8>) -> Option<(BuildUnitModel, Seq<u8>)> {
    match spec_dec_bytes(s) {
        Option::Some((name, s1)) => match spec_dec_list(s1) {
            Option::Some((deps, s2)) => match spec_dec_list(s2) {
                Option::Some((sources, s3)) => match spec_dec_list(s3) {
                    Option::Some((arts, s4)) => Option::Some(
                        (
                            BuildUnitModel {
                                package_name: name,
                                dependencies: deps,
                                source_files: sources,
                                artifacts: arts,
                            },
                            s4,
                        ),
                    ),
                    Option::None => Option::None,
                },
                Option::None => Option::None,
            },
            Option::None => Option::None,
        },
        Option::None => Option::None,
    }
}

/// Read `cnt` artifacts from the front of `s`.
pub open spec fn spec_dec_artifact_items(s: Seq<u8>, cnt: int) -> Option<
    (Seq<ArtifactModel>, Seq<u8>),
>
    decreases cnt,
{
    if cnt <= 0 {
        Option::Some((Seq::empty(), s))
    } else {
        match spec_dec_bytes(s) {
            Option::Some((rel, t)) => match spec_dec_bytes(t) {
                Option::Some((data, u)) => match spec_dec_artifact_items(u, cnt - 1) {
                    Option::Some((vs, w)) => Option::Some(
                        (seq![ArtifactModel { rel_path: rel, data: data }] + vs, w),
                    ),
                    Option::None => Option::None,
                },
                Option::None => Option::None,
            },
            Option::None => Option::None,
        }
    }
}

/// Read a request from the front of `s`: a tag byte, then its fields.
pub open spec fn spec_dec_request(s: Seq<u8>) -> Option<(RequestModel, Seq<u8>)> {
    if s.len() >= 1 && s[0] == TAG_HEARTBEAT {
        Option::Some((RequestModel::Heartbeat, s.skip(1)))
    } else if s.len() >= 1 && s[0] == TAG_BUILD_UNIT {
        match spec_dec_unit(s.skip(1)) {
            Option::Some((unit, s1)) => match spec_dec_bool(s1) {
                Option::Some((release, s2)) => match spec_dec_opt(s2) {
                    Option::Some((target, s3)) => match spec_dec_bytes(s3) {
                        Option::Some((archive, s4)) => Option::Some(
                            (
                                RequestModel::BuildUnit {
                                    unit: unit,
                                    release: release,
                                    target: target,
                                    archive: archive,
                                },
                                s4,
                            ),
                        ),
                        Option::None => Option::None,
                    },
                    Option::None => Option::None,
                },
                Option::None => Option::None,
            },
            Option::None => Option::None,
        }
    } else {
        Option::None
    }
}

/// Read a response from the front of `s`: a tag byte, then its fields.
pub open spec fn spec_dec_response(s: Seq<u8>) -> Option<(ResponseModel, Seq<u8>)> {
    if s.len() >= 1 && s[0] == TAG_HEARTBEAT_ACK {
        Option::Some((ResponseModel::HeartbeatAck, s.skip(1)))
    } else if s.len() >= 1 && s[0] == TAG_BUILD_OUTPUT {
        match spec_dec_bytes(s.skip(1)) {
            Option::Some((name, s1)) => match spec_dec_bytes(s1) {
                Option::Some((line, s2)) => match spec_dec_bool(s2) {
                    Option::Some((is_error, s3)) => Option::Some(
                        (
                            ResponseModel::BuildOutput {
                                unit_name: name,
                                line: line,
                                is_error: is_error,
                            },
                            s3,
                        ),
                    ),
                    Option::None => Option::None,
                },
                Option::None => Option::None,
            },
            Option::None => Option::None,
        }
    } else if s.len() >= 1 && s[0] == TAG_BUILD_COMPLETE {
        match spec_dec_bytes(s.skip(1)) {
            Option::Some((name, s1)) => match spec_dec_len_at(s1) {
                Option::Some((cnt, s2)) => match spec_dec_artifact_items(s2, cnt) {
                    Option::Some((arts, s3)) => Option::Some(
                        (ResponseModel::BuildComplete { unit_name: name, artifacts: arts }, s3),
                    ),
                    Option::None => Option::None,
                },
                Option::None => Option::None,
            },
            Option::None => Option::None,
        }
    } else if s.len() >= 1 && s[0] == TAG_BUILD_ERROR {
        match spec_dec_bytes(s.skip(1)) {
            Option::Some((name, s1)) => match spec_dec_bytes(s1) {
                Option::Some((msg, s2)) => Option::Some(
                    (ResponseModel::BuildError { unit_name: name, message: msg }, s2),
                ),
                Option::None => Option::None,
            },
            Option::None => Option::None,
        }
    } else {
        Option::None
    }
}

/// Decode a whole request payload; trailing bytes are a protocol error.
pub open spec fn spec_decode_request(b: Seq<u8>) -> Option<RequestModel> {
    match spec_dec_request(b) {
        Option::Some((m, rest)) => if rest.len() == 0 {
            Option::Some(m)
        } else {
            Option::None
        },
        Option::None => Option::None,
    }
}

/// Decode a whole response payload; trailing bytes are a protocol error.
pub open spec fn spec_decode_response(b: Seq<u8>) -> Option<ResponseModel> {
    match spec_dec_response(b) {
        Option::Some((m, rest)) => if rest.len() == 0 {
            Option::Some(m)
        } else {
            Option::None
        },
        Option::None => Option::None,
    }
}


/// The rest of an item decode, appended to already-decoded byte strings.
pub open spec fn dec_items_append(
    prefix: Seq<Seq<u8>>,
    r: Option<(Seq<Seq<u8>>, Seq<u8>)>,
) -> Option<(Seq<Seq<u8>>, Seq<u8>)> {
    match r {
        Option::Some((vs, rest)) => Option::Some((prefix + vs, rest)),
        Option::None => Option::None,
    }
}

/// The rest of an artifact decode, appended to already-decoded artifacts.
pub open spec fn dec_arts_append(
    prefix: Seq<ArtifactModel>,
    r: Option<(Seq<ArtifactModel>, Seq<u8>)>,
) -> Option<(Seq<ArtifactModel>, Seq<u8>)> {
    match r {
        Option::Some((vs, rest)) => Option::Some((prefix + vs, rest)),
        Option::None => Option::None,
    }
}

/// Read a four-byte length at position `i`.
fn read_len(b: &[u8], i: usize) -> (r: Option<(u64, usize)>)
    requires
        i <= b.len(),
    ensures
        match (r, spec_dec_len_at(b@.skip(i as int))) {
            (Option::Some(rr), Option::Some(dd)) => rr.0 as int == dd.0 && i <= rr.1 <= b.len()
                && b@.skip(rr.1 as int) == dd.1 && rr.0 < LEN_LIMIT,
            (Option::None, Option::None) => true,
            _ => false,
        },
{
    if b.len() - i >= 4 {
        let b0 = b[i] as u64;
        let b1 = b[i + 1] as u64;
        let b2 = b[i + 2] as u64;
        let b3 = b[i + 3] as u64;
        let n = ((b0 * 256 + b1) * 256 + b2) * 256 + b3;
        proof {
            let t = b@.skip(i as int);
            assert(t[0] == b@[i as int]);
            assert(t[1] == b@[i + 1]);
            assert(t[2] == b@[i + 2]);
            assert(t[3] == b@[i + 3]);
            assert(t.skip(4) =~= b@.skip(i + 4));
        }
        Option::Some((n, i + 4))
    } else {
        Option::None
    }
}

/// Read a length-prefixed byte string at position `i`.
fn read_bytes(b: &[u8], i: usize) -> (r: Option<(Vec<u8>, usize)>)
    requires
        i <= b.len(),
    ensures
        match (r, spec_dec_bytes(b@.skip(i as int))) {
            (Option::Some(rr), Option::Some(dd)) => rr.0@ == dd.0 && i <= rr.1 <= b.len()
                && b@.skip(rr.1 as int) == dd.1,
            (Option::None, Option::None) => true,
            _ => false,
        },
{
    match read_len(b, i) {
        Option::Some((n, j)) => {
            if n <= (b.len() - j) as u64 {
                let m = n as usize;
                let v = crate::bytes::copy_range(b, j, j + m);
                proof {
                    assert(b@.skip(j as int).take(n as int) =~= b@.subrange(j as int, j + n));
                    assert(b@.skip(j as int).skip(n as int) =~= b@.skip(j + n));
                }
                Option::Some((v, j + m))
            } else {
                Option::None
            }
        },
        Option::None => Option::None,
    }
}

/// Read a count-prefixed list of byte strings at position `i`.
fn read_list(b: &[u8], i: usize) -> (r: Option<(Vec<Vec<u8>>, usize)>)
    requires
        i <= b.len(),
    ensures
        match (r, spec_dec_list(b@.skip(i as int))) {
            (Option::Some(rr), Option::Some(dd)) => views(rr.0@) == dd.0 && i <= rr.1 <= b.len()
                && b@.skip(rr.1 as int) == dd.1,
            (Option::None, Option::None) => true,
            _ => false,
        },
{
    match read_len(b, i) {
        Option::Some((n, j0)) => {
            let mut out: Vec<Vec<u8>> = Vec::new();
            let mut j = j0;
            let mut k: u64 = 0;
            proof {
                assert(dec_items_append(
                    views(out@),
                    spec_dec_items(b@.skip(j0 as int), n as int),
                ) =~~= spec_dec_items(b@.skip(j0 as int), n as int)) by {
                    match spec_dec_items(b@.skip(j0 as int), n as int) {
                        Option::Some((vs, rest)) => {
                            assert(views(out@) + vs =~~= vs);
                        },
                        Option::None => {},
                    }
                }
            }
            loop
                invariant
                    0 <= k <= n,
                    i <= j <= b.len(),
                    n < LEN_LIMIT,
                    spec_dec_len_at(b@.skip(i as int)) == Option::Some(
                        (n as int, b@.skip(j0 as int)),
                    ),
                    spec_dec_items(b@.skip(j0 as int), n as int) == dec_items_append(
                        views(out@),
                        spec_dec_items(b@.skip(j as int), n as int - k),
                    ),
                ensures
                    k == n && i <= j <= b.len() && spec_dec_items(b@.skip(j0 as int), n as int)
                        == Option::Some((views(out@), b@.skip(j as int))),
                decreases n - k, b.len() - j,
            {
                if k == n {
                    proof {
                        match spec_dec_items(b@.skip(j as int), 0) {
                            Option::Some((vs, rest)) => {
                                assert(views(out@) + vs =~~= views(out@));
                            },
                            Option::None => {},
                        }
                    }
                    break ;
                }
                match read_bytes(b, j) {
                    Option::Some((v, j2)) => {
                        proof {
                            let prev = views(out@);
                            match spec_dec_items(b@.skip(j2 as int), n as int - k - 1) {
                                Option::Some((vs, rest)) => {
                                    assert(prev + (seq![v@] + vs) =~~= prev.push(v@) + vs);
                                    assert(views(out@.push(v)) =~~= prev.push(v@));
                                },
                                Option::None => {},
                            }
                        }
                        out.push(v);
                        j = j2;
                        k = k + 1;
                    },
                    Option::None => {
                        proof {
                            assert(k < n);
                            assert(spec_dec_bytes(b@.skip(j as int)) is None);
                            assert(spec_dec_items(b@.skip(j as int), n as int - k) is None);
                            assert(spec_dec_items(b@.skip(j0 as int), n as int) is None);
                            assert(spec_dec_list(b@.skip(i as int)) is None);
                        }
                        return Option::None;
                    },
                }
            }
            Option::Some((out, j))
        },
        Option::None => Option::None,
    }
}

/// Read a boolean byte at position `i`.
fn read_bool(b: &[u8], i: usize) -> (r: Option<(bool, usize)>)
    requires
        i <= b.len(),
    ensures
        match (r, spec_dec_bool(b@.skip(i as int))) {
            (Option::Some(rr), Option::Some(dd)) => rr.0 == dd.0 && i <= rr.1 <= b.len()
                && b@.skip(rr.1 as int) == dd.1,
            (Option::None, Option::None) => true,
            _ => false,
        },
{
    proof {
        if i < b.len() {
            assert(b@.skip(i as int).skip(1) =~= b@.skip(i + 1));
        }
    }
    if i < b.len() && b[i] == 1u8 {
        Option::Some((true, i + 1))
    } else if i < b.len() && b[i] == 0u8 {
        Option::Some((false, i + 1))
    } else {
        Option::None
    }
}

/// Read an optional byte string at position `i`.
fn read_opt(b: &[u8], i: usize) -> (r: Option<(Option<Vec<u8>>, usize)>)
    requires
        i <= b.len(),
    ensures
        match (r, spec_dec_opt(b@.skip(i as int))) {
            (Option::Some(rr), Option::Some(dd)) => (match (rr.0, dd.0) {
                (Option::Some(v), Option::Some(w)) => v@ == w,
                (Option::None, Option::None) => true,
                _ => false,
            }) && i <= rr.1 <= b.len() && b@.skip(rr.1 as int) == dd.1,
            (Option::None, Option::None) => true,
            _ => false,
        },
{
    proof {
        if i < b.len() {
            assert(b@.skip(i as int).skip(1) =~= b@.skip(i + 1));
        }
    }
    if i < b.len() && b[i] == 0u8 {
        Option::Some((Option::None, i + 1))
    } else if i < b.len() && b[i] == 1u8 {
        match read_bytes(b, i + 1) {
            Option::Some((v, j)) => Option::Some((Option::Some(v), j)),
            Option::None => Option::None,
        }
    } else {
        Option::None
    }
}

/// Read a build unit at position `i`.
fn read_unit(b: &[u8], i: usize) -> (r: Option<(BuildUnit, usize)>)
    requires
        i <= b.len(),
    ensures
        match (r, spec_dec_unit(b@.skip(i as int))) {
            (Option::Some(rr), Option::Some(dd)) => rr.0@ == dd.0 && i <= rr.1 <= b.len()
                && b@.skip(rr.1 as int) == dd.1,
            (Option::None, Option::None) => true,
            _ => false,
        },
{
    match read_bytes(b, i) {
        Option::Some((name, j1)) => match read_list(b, j1) {
            Option::Some((deps, j2)) => match read_list(b, j2) {
                Option::Some((sources, j3)) => match read_list(b, j3) {
                    Option::Some((arts, j4)) => {
                        let u = BuildUnit {
                            package_name: name,
                            dependencies: deps,
                            source_files: sources,
                            artifacts: arts,
                        };
                        Option::Some((u, j4))
                    },
                    Option::None => Option::None,
                },
                Option::None => Option::None,
            },
            Option::None => Option::None,
        },
        Option::None => Option::None,
    }
}

/// Read `cnt` artifacts starting at position `i`.
fn read_artifact_items(b: &[u8], i: usize, cnt: u64) -> (r: Option<(Vec<ArtifactRef>, usize)>)
    requires
        i <= b.len(),
    ensures
        match (r, spec_dec_artifact_items(b@.skip(i as int), cnt as int)) {
            (Option::Some(rr), Option::Some(dd)) => artifact_views(rr.0@) == dd.0 && i <= rr.1
                <= b.len() && b@.skip(rr.1 as int) == dd.1,
            (Option::None, Option::None) => true,
            _ => false,
        },
{
    let mut out: Vec<ArtifactRef> = Vec::new();
    let mut j = i;
    let mut k: u64 = 0;
    proof {
        assert(dec_arts_append(
            artifact_views(out@),
            spec_dec_artifact_items(b@.skip(i as int), cnt as int),
        ) =~~= spec_dec_artifact_items(b@.skip(i as int), cnt as int)) by {
            match spec_dec_artifact_items(b@.skip(i as int), cnt as int) {
                Option::Some((vs, rest)) => {
                    assert(artifact_views(out@) + vs =~~= vs);
                },
                Option::None => {},
            }
        }
    }
    loop
        invariant
            0 <= k <= cnt,
            i <= j <= b.len(),
            spec_dec_artifact_items(b@.skip(i as int), cnt as int) == dec_arts_append(
                artifact_views(out@),
                spec_dec_artifact_items(b@.skip(j as int), cnt as int - k),
            ),
        ensures
            k == cnt && i <= j <= b.len() && spec_dec_artifact_items(b@.skip(i as int), cnt as int)
                == Option::Some((artifact_views(out@), b@.skip(j as int))),
        decreases cnt - k, b.len() - j,
    {
        if k == cnt {
            proof {
                match spec_dec_artifact_items(b@.skip(j as int), 0) {
                    Option::Some((vs, rest)) => {
                        assert(artifact_views(out@) + vs =~~= artifact_views(out@));
                    },
                    Option::None => {},
                }
            }
            break ;
        }
        match read_bytes(b, j) {
            Option::Some((rel, j1)) => match read_bytes(b, j1) {
                Option::Some((data, j2)) => {
                    let a = ArtifactRef { rel_path: rel, data: data };
                    proof {
                        let prev = artifact_views(out@);
                        match spec_dec_artifact_items(b@.skip(j2 as int), cnt as int - k - 1) {
                            Option::Some((vs, rest)) => {
                                assert(prev + (seq![a@] + vs) =~~= prev.push(a@) + vs);
                                assert(artifact_views(out@.push(a)) =~~= prev.push(a@));
                            },
                            Option::None => {},
                        }
                    }
                    out.push(a);
                    j = j2;
                    k = k + 1;
                },
                Option::None => {
                    return Option::None;
                },
            },
            Option::None => {
                return Option::None;
            },
        }
    }
    Option::Some((out, j))
}

/// Decode one request payload, or fail on a malformed or trailing byte.
pub fn decode_request(b: &[u8]) -> (r: Option<Request>)
    ensures
        match (r, spec_decode_request(b@)) {
            (Option::Some(rr), Option::Some(dd)) => rr@ == dd,
            (Option::None, Option::None) => true,
            _ => false,
        },
{
    proof {
        assert(b@.skip(0) =~= b@);
        if b@.len() >= 1 {
            assert(b@.skip(0).skip(1) =~= b@.skip(1));
        }
    }
    if b.len() >= 1 && b[0] == TAG_HEARTBEAT {
        if b.len() == 1 {
            Option::Some(Request::Heartbeat)
        } else {
            Option::None
        }
    } else if b.len() >= 1 && b[0] == TAG_BUILD_UNIT {
        match read_unit(b, 1) {
            Option::Some((unit, j1)) => match read_bool(b, j1) {
                Option::Some((release, j2)) => match read_opt(b, j2) {
                    Option::Some((target, j3)) => match read_bytes(b, j3) {
                        Option::Some((archive, j4)) => {
                            if j4 == b.len() {
                                let q = Request::BuildUnit { unit, release, target, archive };
                                proof {
                                    assert(b@.skip(j4 as int).len() == 0);
                                }
                                Option::Some(q)
                            } else {
                                Option::None
                            }
                        },
                        Option::None => Option::None,
                    },
                    Option::None => Option::None,
                },
                Option::None => Option::None,
            },
            Option::None => Option::None,
        }
    } else {
        Option::None
    }
}

/// Read the fields of a streamed-output response after its tag.
fn decode_output_body(b: &[u8]) -> (r: Option<Response>)
    requires
        b.len() >= 1,
        b@[0] == TAG_BUILD_OUTPUT,
        TAG_BUILD_OUTPUT != TAG_HEARTBEAT_ACK,
    ensures
        match (r, spec_dec_response(b@)) {
            (Option::Some(rr), Option::Some(dd)) => rr@ == dd.0 && dd.1.len() == 0,
            (Option::None, Option::None) => true,
            (Option::None, Option::Some(dd)) => dd.1.len() != 0,
            _ => false,
        },
{
    match read_bytes(b, 1) {
        Option::Some((unit_name, j1)) => match read_bytes(b, j1) {
            Option::Some((line, j2)) => match read_bool(b, j2) {
                Option::Some((is_error, j3)) => {
                    if j3 == b.len() {
                        proof {
                            assert(b@.skip(j3 as int).len() == 0);
                        }
                        Option::Some(Response::BuildOutput { unit_name, line, is_error })
                    } else {
                        Option::None
                    }
                },
                Option::None => Option::None,
            },
            Option::None => Option::None,
        },
        Option::None => Option::None,
    }
}

/// Read the fields of a successful terminal response after its tag.
fn decode_complete_body(b: &[u8]) -> (r: Option<Response>)
    requires
        b.len() >= 1,
        b@[0] == TAG_BUILD_COMPLETE,
        TAG_BUILD_COMPLETE != TAG_HEARTBEAT_ACK,
        TAG_BUILD_COMPLETE != TAG_BUILD_OUTPUT,
    ensures
        match (r, spec_dec_response(b@)) {
            (Option::Some(rr), Option::Some(dd)) => rr@ == dd.0 && dd.1.len() == 0,
            (Option::None, Option::None) => true,
            (Option::None, Option::Some(dd)) => dd.1.len() != 0,
            _ => false,
        },
{
    match read_bytes(b, 1) {
        Option::Some((unit_name, j1)) => match read_len(b, j1) {
            Option::Some((cnt, j2)) => match read_artifact_items(b, j2, cnt) {
                Option::Some((artifacts, j3)) => {
                    if j3 == b.len() {
                        proof {
                            assert(b@.skip(j3 as int).len() == 0);
                        }
                        Option::Some(Response::BuildComplete { unit_name, artifacts })
                    } else {
                        Option::None
                    }
                },
                Option::None => Option::None,
            },
            Option::None => Option::None,
        },
        Option::None => Option::None,
    }
}

/// Read the fields of a failed terminal response after its tag.
fn decode_error_body(b: &[u8]) -> (r: Option<Response>)
    requires
        b.len() >= 1,
        b@[0] == TAG_BUILD_ERROR,
        TAG_BUILD_ERROR != TAG_HEARTBEAT_ACK,
        TAG_BUILD_ERROR != TAG_BUILD_OUTPUT,
        TAG_BUILD_ERROR != TAG_BUILD_COMPLETE,
    ensures
        match (r, spec_dec_response(b@)) {
            (Option::Some(rr), Option::Some(dd)) => rr@ == dd.0 && dd.1.len() == 0,
            (Option::None, Option::None) => true,
            (Option::None, Option::Some(dd)) => dd.1.len() != 0,
            _ => false,
        },
{
    match read_bytes(b, 1) {
        Option::Some((unit_name, j1)) => match read_bytes(b, j1) {
            Option::Some((message, j2)) => {
                if j2 == b.len() {
                    proof {
                        assert(b@.skip(j2 as int).len() == 0);
                    }
                    Option::Some(Response::BuildError { unit_name, message })
                } else {
                    Option::None
                }
            },
            Option::None => Option::None,
        },
        Option::None => Option::None,
    }
}

/// Decode one response payload, or fail on a malformed or trailing byte.
pub fn decode_response(b: &[u8]) -> (r: Option<Response>)
    ensures
        match (r, spec_decode_response(b@)) {
            (Option::Some(rr), Option::Some(dd)) => rr@ == dd,
            (Option::None, Option::None) => true,
            _ => false,
        },
{
    proof {
        assert(b@.skip(0) =~= b@);
        if b@.len() >= 1 {
            assert(b@.skip(0).skip(1) =~= b@.skip(1));
        }
    }
    if b.len() >= 1 && b[0] == TAG_HEARTBEAT_ACK {
        if b.len() == 1 {
            Option::Some(Response::HeartbeatAck)
        } else {
            Option::None
        }
    } else if b.len() >= 1 && b[0] == TAG_BUILD_OUTPUT {
        decode_output_body(b)
    } else if b.len() >= 1 && b[0] == TAG_BUILD_COMPLETE {
        decode_complete_body(b)
    } else if b.len() >= 1 && b[0] == TAG_BUILD_ERROR {
        decode_error_body(b)
    } else {
        Option::None
    }
}

/// Frame a payload for the stream: its length in four big-endian bytes,
/// then the payload itself.
pub fn frame_payload(p: &[u8]) -> (out: Vec<u8>)
    requires
        wf_bytes(p@),
    ensures
        out@ == spec_enc_bytes(p@),
{
    let mut out: Vec<u8> = Vec::new();
    push_bytes(&mut out, p);
    proof {
        assert(out@ =~= spec_enc_bytes(p@));
    }
    out
}

/// Take one complete frame off the front of a receive buffer.
///
/// Returns the payload and the number of bytes consumed, or nothing if
/// the buffer does not yet hold a full length-prefixed frame. A receiver
/// must not act on a payload before the full declared length is present.
pub fn take_frame(buf: &[u8]) -> (r: Option<(Vec<u8>, usize)>)
    ensures
        match (r, spec_dec_bytes(buf@)) {
            (Option::Some(rr), Option::Some(dd)) => rr.0@ == dd.0 && rr.1 <= buf.len()
                && buf@.skip(rr.1 as int) == dd.1,
            (Option::None, Option::None) => true,
            _ => false,
        },
{
    proof {
        assert(buf@.skip(0) =~= buf@);
    }
    read_bytes(buf, 0)
}


/// Reading a length off its four encoded bytes yields the length and
/// leaves the rest untouched.
proof fn lemma_dec_len_enc(n: int, rest: Seq<u8>)
    requires
        0 <= n < LEN_LIMIT,
    ensures
        spec_dec_len_at(spec_enc_len(n) + rest) == Option::Some((n, rest)),
{
    let e = spec_enc_len(n);
    let s = e + rest;
    assert(s[0] == e[0] && s[1] == e[1] && s[2] == e[2] && s[3] == e[3]);
    lemma_len_round_trip(n);
    assert(s.skip(4) =~= rest);
}

/// Framing round trip: a length-prefixed byte string is read back
/// exactly, and what follows the frame is left for the next read.
pub proof fn lemma_dec_bytes_enc(v: Seq<u8>, rest: Seq<u8>)
    requires
        wf_bytes(v),
    ensures
        spec_dec_bytes(spec_enc_bytes(v) + rest) == Option::Some((v, rest)),
{
    assert(spec_enc_bytes(v) + rest =~= spec_enc_len(v.len() as int) + (v + rest));
    lemma_dec_len_enc(v.len() as int, v + rest);
    assert((v + rest).take(v.len() as int) =~= v);
    assert((v + rest).skip(v.len() as int) =~= rest);
}

proof fn lemma_dec_items_enc(l: Seq<Seq<u8>>, rest: Seq<u8>)
    requires
        forall|i: int| 0 <= i < l.len() ==> wf_bytes(#[trigger] l[i]),
    ensures
        spec_dec_items(spec_enc_items(l) + rest, l.len() as int) == Option::Some((l, rest)),
    decreases l.len(),
{
    if l.len() == 0 {
        assert(spec_enc_items(l) + rest =~= rest);
        assert(Seq::<Seq<u8>>::empty() =~~= l);
    } else {
        assert(spec_enc_items(l) + rest =~= spec_enc_bytes(l[0]) + (spec_enc_items(l.skip(1))
            + rest));
        lemma_dec_bytes_enc(l[0], spec_enc_items(l.skip(1)) + rest);
        lemma_dec_items_enc(l.skip(1), rest);
        assert(seq![l[0]] + l.skip(1) =~~= l);
    }
}

proof fn lemma_dec_list_enc(l: Seq<Seq<u8>>, rest: Seq<u8>)
    requires
        wf_list(l),
    ensures
        spec_dec_list(spec_enc_list(l) + rest) == Option::Some((l, rest)),
{
    assert(spec_enc_list(l) + rest =~= spec_enc_len(l.len() as int) + (spec_enc_items(l) + rest));
    lemma_dec_len_enc(l.len() as int, spec_enc_items(l) + rest);
    lemma_dec_items_enc(l, rest);
}

proof fn lemma_dec_bool_enc(x: bool, rest: Seq<u8>)
    ensures
        spec_dec_bool(spec_enc_bool(x) + rest) == Option::Some((x, rest)),
{
    let s = spec_enc_bool(x) + rest;
    assert(s[0] == spec_enc_bool(x)[0]);
    assert(s.skip(1) =~= rest);
}

proof fn lemma_dec_opt_enc(t: Option<Seq<u8>>, rest: Seq<u8>)
    requires
        match t {
            Option::Some(v) => wf_bytes(v),
            Option::None => true,
        },
    ensures
        spec_dec_opt(spec_enc_opt(t) + rest) == Option::Some((t, rest)),
{
    let s = spec_enc_opt(t) + rest;
    match t {
        Option::Some(v) => {
            assert(s[0] == 1u8);
            assert(s.skip(1) =~= spec_enc_bytes(v) + rest);
            lemma_dec_bytes_enc(v, rest);
        },
        Option::None => {
            assert(s[0] == 0u8);
            assert(s.skip(1) =~= rest);
        },
    }
}

proof fn lemma_dec_unit_enc(u: BuildUnitModel, rest: Seq<u8>)
    requires
        wf_unit(u),
    ensures
        spec_dec_unit(spec_enc_unit(u) + rest) == Option::Some((u, rest)),
{
    let r3 = spec_enc_list(u.artifacts) + rest;
    let r2 = spec_enc_list(u.source_files) + r3;
    let r1 = spec_enc_list(u.dependencies) + r2;
    assert(spec_enc_unit(u) + rest =~= spec_enc_bytes(u.package_name) + r1);
    lemma_dec_bytes_enc(u.package_name, r1);
    assert(r1 =~= spec_enc_list(u.dependencies) + r2);
    lemma_dec_list_enc(u.dependencies, r2);
    lemma_dec_list_enc(u.source_files, r3);
    lemma_dec_list_enc(u.artifacts, rest);
    assert(BuildUnitModel {
        package_name: u.package_name,
        dependencies: u.dependencies,
        source_files: u.source_files,
        artifacts: u.artifacts,
    } == u);
}

#[verifier::rlimit(50)]
proof fn lemma_dec_artifact_items_enc(l: Seq<ArtifactModel>, rest: Seq<u8>)
    requires
        forall|i: int|
            0 <= i < l.len() ==> wf_bytes(#[trigger] l[i].rel_path) && wf_bytes(l[i].data),
    ensures
        spec_dec_artifact_items(spec_enc_artifact_items(l) + rest, l.len() as int)
            == Option::Some((l, rest)),
    decreases l.len(),
{
    if l.len() == 0 {
        assert(spec_enc_artifact_items(l) + rest =~= rest);
        assert(Seq::<ArtifactModel>::empty() =~~= l);
    } else {
        let a = l[0];
        let r1 = spec_enc_bytes(a.data) + (spec_enc_artifact_items(l.skip(1)) + rest);
        assert(spec_enc_artifact_items(l) + rest =~= spec_enc_bytes(a.rel_path) + r1);
        lemma_dec_bytes_enc(a.rel_path, r1);
        assert(r1 =~= spec_enc_bytes(a.data) + (spec_enc_artifact_items(l.skip(1)) + rest));
        lemma_dec_bytes_enc(a.data, spec_enc_artifact_items(l.skip(1)) + rest);
        lemma_dec_artifact_items_enc(l.skip(1), rest);
        assert(ArtifactModel { rel_path: a.rel_path, data: a.data } == a);
        assert(seq![a] + l.skip(1) =~~= l);
    }
}

/// Round trip: decoding the bytes produced by encoding any
/// well-formed request reproduces an equal request.
pub proof fn lemma_request_round_trip(m: RequestModel)
    requires
        wf_request(m),
    ensures
        spec_decode_request(spec_encode_request(m)) == Option::Some(m),
{
    let b = spec_encode_request(m);
    match m {
        RequestModel::Heartbeat => {
            assert(b[0] == TAG_HEARTBEAT);
            assert(b.skip(1).len() == 0);
        },
        RequestModel::BuildUnit { unit, release, target, archive } => {
            assert(b[0] == TAG_BUILD_UNIT);
            let r3 = spec_enc_bytes(archive) + Seq::<u8>::empty();
            let r2 = spec_enc_opt(target) + r3;
            let r1 = spec_enc_bool(release) + r2;
            assert(b.skip(1) =~= spec_enc_unit(unit) + r1);
            lemma_dec_unit_enc(unit, r1);
            assert(r1 =~= spec_enc_bool(release) + r2);
            lemma_dec_bool_enc(release, r2);
            assert(r2 =~= spec_enc_opt(target) + r3);
            lemma_dec_opt_enc(target, r3);
            assert(r3 =~= spec_enc_bytes(archive) + Seq::<u8>::empty());
            lemma_dec_bytes_enc(archive, Seq::<u8>::empty());
            assert(RequestModel::BuildUnit {
                unit: unit,
                release: release,
                target: target,
                archive: archive,
            } == m);
        },
    }
}

/// Round trip: decoding the bytes produced by encoding any
/// well-formed response reproduces an equal response.
#[verifier::rlimit(100)]
pub proof fn lemma_response_round_trip(m: ResponseModel)
    requires
        wf_response(m),
    ensures
        spec_decode_response(spec_encode_response(m)) == Option::Some(m),
{
    let b = spec_encode_response(m);
    match m {
        ResponseModel::HeartbeatAck => {
            assert(b[0] == TAG_HEARTBEAT_ACK);
            assert(b.skip(1).len() == 0);
        },
        ResponseModel::BuildOutput { unit_name, line, is_error } => {
            assert(b[0] == TAG_BUILD_OUTPUT);
            let r2 = spec_enc_bool(is_error) + Seq::<u8>::empty();
            let r1 = spec_enc_bytes(line) + r2;
            assert(b.skip(1) =~= spec_enc_bytes(unit_name) + r1);
            lemma_dec_bytes_enc(unit_name, r1);
            assert(r1 =~= spec_enc_bytes(line) + r2);
            lemma_dec_bytes_enc(line, r2);
            assert(r2 =~= spec_enc_bool(is_error) + Seq::<u8>::empty());
            lemma_dec_bool_enc(is_error, Seq::<u8>::empty());
            assert(ResponseModel::BuildOutput {
                unit_name: unit_name,
                line: line,
                is_error: is_error,
            } == m);
        },
        ResponseModel::BuildComplete { unit_name, artifacts } => {
            assert(b[0] == TAG_BUILD_COMPLETE);
            let r2 = spec_enc_artifact_items(artifacts) + Seq::<u8>::empty();
            let r1 = spec_enc_len(artifacts.len() as int) + r2;
            assert(b.skip(1) =~= spec_enc_bytes(unit_name) + r1);
            lemma_dec_bytes_enc(unit_name, r1);
            assert(r1 =~= spec_enc_len(artifacts.len() as int) + r2);
            lemma_dec_len_enc(artifacts.len() as int, r2);
            assert(r2 =~= spec_enc_artifact_items(artifacts) + Seq::<u8>::empty());
            lemma_dec_artifact_items_enc(artifacts, Seq::<u8>::empty());
            assert(ResponseModel::BuildComplete {
                unit_name: unit_name,
                artifacts: artifacts,
            } == m);
        },
        ResponseModel::BuildError { unit_name, message } => {
            assert(b[0] == TAG_BUILD_ERROR);
            let r1 = spec_enc_bytes(message) + Seq::<u8>::empty();
            assert(b.skip(1) =~= spec_enc_bytes(unit_name) + r1);
            lemma_dec_bytes_enc(unit_name, r1);
            assert(r1 =~= spec_enc_bytes(message) + Seq::<u8>::empty());
            lemma_dec_bytes_enc(message, Seq::<u8>::empty());
            assert(ResponseModel::BuildError { unit_name: unit_name, message: message } == m);
        },
    }
}


/// Can this list's count and every element travel behind four-byte
/// prefixes?
fn list_wf(l: &Vec<Vec<u8>>) -> (r: bool)
    ensures
        r == wf_list(views(l@)),
{
    if !((l.len() as u64) < LEN_LIMIT) {
        return false;
    }
    let n = l.len();
    let mut i: usize = 0;
    while i < n
        invariant
            n == l.len(),
            0 <= i <= n,
            forall|k: int| 0 <= k < i ==> wf_bytes(#[trigger] views(l@)[k]),
        decreases n - i,
    {
        if !((l[i].len() as u64) < LEN_LIMIT) {
            assert(!wf_bytes(views(l@)[i as int]));
            return false;
        }
        assert(wf_bytes(views(l@)[i as int]));
        i = i + 1;
    }
    true
}

/// Is every field of the request small enough to encode?
pub fn request_wf(r: &Request) -> (res: bool)
    ensures
        res == wf_request(r@),
{
    match r {
        Request::Heartbeat => true,
        Request::BuildUnit { unit, release, target, archive } => {
            let mut ok = (unit.package_name.len() as u64) < LEN_LIMIT;
            ok = ok && list_wf(&unit.dependencies);
            ok = ok && list_wf(&unit.source_files);
            ok = ok && list_wf(&unit.artifacts);
            ok = ok && (match target {
                Option::Some(t) => (t.len() as u64) < LEN_LIMIT,
                Option::None => true,
            });
            ok = ok && (archive.len() as u64) < LEN_LIMIT;
            ok
        },
    }
}

/// The text `request too large`.
pub open spec fn txt_too_large() -> Seq<u8> {
    seq![
        114u8, 101, 113, 117, 101, 115, 116, 32, 116, 111, 111, 32, 108, 97, 114, 103, 101,
    ]
}

/// Encode a request and frame it for the stream.
///
/// A request whose fields or whose whole encoding cannot travel behind
/// a four-byte length is a protocol error; everything else yields the
/// exact frame bytes.
pub fn frame_request(r: &Request) -> (out: Result<Vec<u8>, crate::errors::ClientError>)
    ensures
        match out {
            Result::Ok(b) => wf_request(r@) && wf_bytes(spec_encode_request(r@)) && b@
                == spec_enc_bytes(spec_encode_request(r@)),
            Result::Err(e) => e@ == (crate::errors::ClientErrorModel::Protocol {
                detail: txt_too_large(),
            }) && (!wf_request(r@) || !wf_bytes(spec_encode_request(r@))),
        },
{
    let detail: Vec<u8> = vec![
        114u8, 101, 113, 117, 101, 115, 116, 32, 116, 111, 111, 32, 108, 97, 114, 103, 101,
    ];
    proof {
        assert(detail@ =~= txt_too_large());
    }
    if !request_wf(r) {
        return Result::Err(crate::errors::ClientError::Protocol { detail });
    }
    let payload = encode_request(r);
    if !((payload.len() as u64) < LEN_LIMIT) {
        return Result::Err(crate::errors::ClientError::Protocol { detail });
    }
    Result::Ok(frame_payload(payload.as_slice()))
}

} // verus!
