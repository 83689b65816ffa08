//! The labels under which a verification is counted.

use vstd::prelude::*;
use vstd::string::*;

verus! {

/// Whether a contract was verified.
#[derive(Clone, Copy, Debug, PartialEq, Eq, Structural)]
pub enum VerificationStatus {
    Verified,
    Failed,
}

/// The answer to a request to verify a contract.
#[derive(Clone, Debug, PartialEq, Eq)]
pub struct VerificationResponse {
    pub message: String,
    pub status: VerificationStatus,
}

/// The three labels of the counter of verifications.
#[derive(Clone, Debug, PartialEq, Eq)]
pub struct VerifyLabels {
    pub language: &'static str,
    pub endpoint: String,
    pub status: &'static str,
}

/// The label of a status: `ok` or `fail`.
pub open spec fn status_label(status: VerificationStatus) -> Seq<char> {
    match status {
        VerificationStatus::Verified => "ok"@,
        VerificationStatus::Failed => "fail"@,
    }
}

/// The labels under which the answer `response`, given by the endpoint
/// `method`, is counted: the language, the endpoint and whether the
/// contract was verified. The caller adds one to the counter under them.
pub fn count_verify_contract(response: &VerificationResponse, method: &str) -> (labels:
    VerifyLabels)
    ensures
        labels.language@ == "solidity"@,
        labels.endpoint@ == method@,
        labels.status@ == status_label(response.status),
{
    let status = match response.status {
        VerificationStatus::Verified => "ok",
        VerificationStatus::Failed => "fail",
    };
    VerifyLabels { language: "solidity", endpoint: String::from_str(method), status }
}

} // verus!
