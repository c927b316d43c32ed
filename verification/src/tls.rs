//! Whether to terminate TLS, and how its certificate comes about.

use crate::text;
use vstd::prelude::*;
use vstd::string::*;
use vstd::utf8::*;

verus! {

/// The file that the certificate is written to.
pub const CERT_PATH: &'static str = "server.crt";

/// The file that the private key is written to.
pub const KEY_PATH: &'static str = "server.key";

/// The PKCS12 archive that holds both.
pub const ARCHIVE_PATH: &'static str = "identity.p12";

/// The password of the archive.
pub const ARCHIVE_PASSWORD: &'static str = "mypassword";

/// Whether the `SSL_ENABLED` setting asks for TLS: it is `true`, in any mixture
/// of upper and lower case, and nothing else, or it is not there.
pub fn ssl_enabled(raw: Option<&str>) -> (r: bool)
    ensures
        match raw {
            None => r,
            Some(value) => {
                &&& r == (text::lowercase(value@) == "true"@)
                &&& is_ascii_chars(value@) ==> r == (value@.map_values(
                    |c: char| text::ascii_lower(c),
                ) == "true"@)
            },
        },
{
    match raw {
        None => true,
        Some(value) => {
            let lower: String = text::to_lowercase(value);
            lower == "true".to_owned()
        },
    }
}

/// One run of `openssl`: its arguments, and what to report if it fails.
pub struct CertificateStep {
    pub args: Vec<&'static str>,
    pub failure: &'static str,
}

impl CertificateStep {
    /// The arguments, as texts.
    pub open spec fn arg_texts(self) -> Seq<Seq<char>> {
        Seq::new(self.args@.len(), |i: int| self.args@[i]@)
    }
}

/// The arguments that make a key and a self-signed certificate.
pub open spec fn request_args() -> Seq<Seq<char>> {
    seq![
        "req"@,
        "-new"@,
        "-newkey"@,
        "rsa:2048"@,
        "-days"@,
        "365"@,
        "-nodes"@,
        "-x509"@,
        "-keyout"@,
        KEY_PATH@,
        "-out"@,
        CERT_PATH@,
        "-subj"@,
        "/CN=localhost"@,
    ]
}

/// The arguments that put the key and the certificate into the archive.
pub open spec fn export_args() -> Seq<Seq<char>> {
    seq![
        "pkcs12"@,
        "-export"@,
        "-out"@,
        ARCHIVE_PATH@,
        "-inkey"@,
        KEY_PATH@,
        "-in"@,
        CERT_PATH@,
        "-passout"@,
        "pass:mypassword"@,
    ]
}

/// What has to be run before the archive can be read: nothing where it is there,
/// else a run that makes a key and a certificate, and then one that archives
/// them.
pub fn ensure_ssl_certificates(archive_exists: bool) -> (steps: Vec<CertificateStep>)
    ensures
        archive_exists ==> steps@.len() == 0,
        !archive_exists ==> {
            &&& steps@.len() == 2
            &&& steps@[0].arg_texts() == request_args()
            &&& steps@[0].failure@
                == "Failed to generate private key and certificate using openssl"@
            &&& steps@[1].arg_texts() == export_args()
            &&& steps@[1].failure@ == "Failed to export pkcs12 archive"@
        },
{
    let mut steps: Vec<CertificateStep> = Vec::new();
    if !archive_exists {
        let request: CertificateStep = CertificateStep {
            args: vec![
                "req",
                "-new",
                "-newkey",
                "rsa:2048",
                "-days",
                "365",
                "-nodes",
                "-x509",
                "-keyout",
                KEY_PATH,
                "-out",
                CERT_PATH,
                "-subj",
                "/CN=localhost",
            ],
            failure: "Failed to generate private key and certificate using openssl",
        };
        assert(request.arg_texts() == request_args());
        let export: CertificateStep = CertificateStep {
            args: vec![
                "pkcs12",
                "-export",
                "-out",
                ARCHIVE_PATH,
                "-inkey",
                KEY_PATH,
                "-in",
                CERT_PATH,
                "-passout",
                "pass:mypassword",
            ],
            failure: "Failed to export pkcs12 archive",
        };
        assert(export.arg_texts() == export_args());
        steps.push(request);
        steps.push(export);
    }
    steps
}

/// How a run ended.
pub enum RunOutcome {
    /// With success.
    Succeeded,
    /// With failure.
    Failed,
    /// It could not be started; the text says why.
    NotStarted(String),
}

impl RunOutcome {
    /// What is reported of the run: nothing if it succeeded, else why it did not.
    pub open spec fn complaint(self, step: CertificateStep) -> Option<Seq<char>> {
        match self {
            RunOutcome::Succeeded => None,
            RunOutcome::Failed => Some(step.failure@),
            RunOutcome::NotStarted(why) => Some(why@),
        }
    }
}

/// The run to begin with; none where nothing has to be run.
pub fn first_run(steps: &Vec<CertificateStep>) -> (r: Option<usize>)
    ensures
        r == (if steps@.len() == 0 {
            None
        } else {
            Some(0usize)
        }),
{
    if steps.len() == 0 {
        None
    } else {
        Some(0)
    }
}

/// What to do after a run: report it if it did not succeed, else go on to the next
/// run, if there is one.
pub fn after_run(steps: &Vec<CertificateStep>, ran: usize, outcome: RunOutcome) -> (r: Result<
    Option<usize>,
    String,
>)
    requires
        ran < steps@.len(),
    ensures
        match outcome.complaint(steps@[ran as int]) {
            Some(why) => r matches Err(e) && e@ == why,
            None => r matches Ok(next) && next == (if ran + 1 < steps@.len() {
                Some((ran + 1) as usize)
            } else {
                None
            }),
        },
{
    match outcome {
        RunOutcome::Succeeded => {
            let count: usize = steps.len();
            if ran + 1 < count {
                Ok(Some(ran + 1))
            } else {
                Ok(None)
            }
        },
        RunOutcome::Failed => Err(steps[ran].failure.to_owned()),
        RunOutcome::NotStarted(why) => Err(why),
    }
}

/// What becomes of the runs from `at` on, where run `i` ends with `outcomes[i]`:
/// how many are begun, and what is reported. The first that does not succeed is
/// reported and is the last that is begun.
pub open spec fn course(
    steps: Seq<CertificateStep>,
    outcomes: Seq<RunOutcome>,
    at: nat,
) -> (nat, Option<Seq<char>>)
    decreases steps.len() - at,
{
    if at >= steps.len() {
        (0, None)
    } else {
        match outcomes[at as int].complaint(steps[at as int]) {
            Some(why) => (1, Some(why)),
            None => {
                let rest = course(steps, outcomes, at + 1);
                (rest.0 + 1, rest.1)
            },
        }
    }
}

/// A certificate is had exactly where every run succeeded, and then every run was
/// begun; where the archive exists there is no run, and nothing can fail.
pub proof fn a_certificate_needs_every_run(
    steps: Seq<CertificateStep>,
    outcomes: Seq<RunOutcome>,
    at: nat,
)
    requires
        at <= steps.len(),
    ensures
        course(steps, outcomes, at).1 is None <==> forall|i: int|
            at <= i < steps.len() ==> #[trigger] outcomes[i] is Succeeded,
        course(steps, outcomes, at).1 is None ==> course(steps, outcomes, at).0 == steps.len() - at,
        steps.len() == 0 ==> course(steps, outcomes, at) == (0nat, None::<Seq<char>>),
    decreases steps.len() - at,
{
    if at < steps.len() {
        a_certificate_needs_every_run(steps, outcomes, at + 1);
        assert(outcomes[at as int].complaint(steps[at as int]) is None <==> outcomes[at as int]
            is Succeeded);
        if course(steps, outcomes, at).1 is None {
            assert forall|i: int| at <= i < steps.len() implies #[trigger] outcomes[i]
                is Succeeded by {
                if i > at {
                    assert(outcomes[i] is Succeeded);
                }
            }
        }
    }
}

/// A run is begun exactly where every run in front of it succeeded: the archive is
/// made only if the certificate was. The run that did not succeed is the one that is
/// reported.
pub proof fn runs_follow_success(
    steps: Seq<CertificateStep>,
    outcomes: Seq<RunOutcome>,
    at: nat,
    k: nat,
)
    requires
        at + k < steps.len(),
    ensures
        k < course(steps, outcomes, at).0 <==> forall|i: int|
            at <= i < at + k ==> #[trigger] outcomes[i] is Succeeded,
        k < course(steps, outcomes, at).0 && !(outcomes[(at + k) as int] is Succeeded)
            ==> course(steps, outcomes, at) == (
            k + 1,
            outcomes[(at + k) as int].complaint(steps[(at + k) as int]),
        ),
    decreases k,
{
    assert(outcomes[at as int].complaint(steps[at as int]) is None <==> outcomes[at as int]
        is Succeeded);
    if k > 0 {
        let rest = (k - 1) as nat;
        runs_follow_success(steps, outcomes, at + 1, rest);
        assert((at + 1) + rest == at + k);
        if outcomes[at as int] is Succeeded {
            assert(rest < course(steps, outcomes, at + 1).0 <==> k < course(
                steps,
                outcomes,
                at,
            ).0);
            assert((forall|i: int| at <= i < at + k ==> #[trigger] outcomes[i] is Succeeded)
                <==> (forall|i: int|
                at + 1 <= i < at + k ==> #[trigger] outcomes[i] is Succeeded));
        }
    }
}

} // verus!
