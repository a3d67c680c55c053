use beacon_state_proof::error::Error;
use beacon_state_proof::fork_name::ForkName;
use beacon_state_proof::rpc::{fetch_beacon_state, HttpResponse};
use beacon_state_proof::state_proof_fetcher::StateProofFetcher;

fn answer(status: u16, header: Option<&str>, body: &[u8]) -> HttpResponse {
    HttpResponse { status, consensus_version: header.map(|h| h.to_string()), body: body.to_vec() }
}

#[test]
fn header_names_the_fork() {
    assert_eq!(ForkName::from_header("phase0"), Ok(ForkName::Base));
    assert_eq!(ForkName::from_header("Phase0"), Ok(ForkName::Base));
    assert_eq!(ForkName::from_header("base"), Ok(ForkName::Base));
    assert_eq!(ForkName::from_header("altair"), Ok(ForkName::Altair));
    assert_eq!(ForkName::from_header("Altair"), Ok(ForkName::Altair));
    assert_eq!(ForkName::from_header("bellatrix"), Ok(ForkName::Bellatrix));
    assert_eq!(ForkName::from_header("merge"), Ok(ForkName::Bellatrix));
    assert_eq!(ForkName::from_header("capella"), Ok(ForkName::Capella));
    assert_eq!(ForkName::from_header("Capella"), Ok(ForkName::Capella));
    assert_eq!(ForkName::from_header("deneb"), Ok(ForkName::Deneb));
}

#[test]
fn only_the_first_character_is_put_in_upper_case() {
    for value in ["CAPELLA", "cAPELLA", "capellA", "", " capella", "capella ", "electra", "d", "Ḋeneb"] {
        assert_eq!(ForkName::from_header(value), Err(Error::InvalidConsensusVersion));
    }
}

#[test]
fn resolve_tells_a_missing_header_from_an_unknown_one() {
    assert_eq!(ForkName::resolve(None), Err(Error::MissingConsensusVersion));
    assert_eq!(ForkName::resolve(Some("unknown")), Err(Error::InvalidConsensusVersion));
    assert_eq!(ForkName::resolve(Some("deneb")), Ok(ForkName::Deneb));
}

#[test]
fn response_without_the_header_is_not_decoded() {
    let fetcher = StateProofFetcher::new("http://localhost".to_string());
    for status in [200u16, 204, 404, 500] {
        for body in [&b""[..], &b"anything"[..]] {
            let response = answer(status, None, body);
            assert_eq!(response.fork_name(), Err(Error::MissingConsensusVersion));
            assert_eq!(fetch_beacon_state(&response).err(), Some(Error::MissingConsensusVersion));
            assert_eq!(fetcher.fetch_state_proof(&response, 55).err(), Some(Error::MissingConsensusVersion));
            assert_eq!(
                fetcher.fetch_next_sync_committee_proof(&response, 1).err(),
                Some(Error::MissingConsensusVersion)
            );
        }
    }
}

#[test]
fn response_that_reports_no_success_is_a_transport_error() {
    let response = answer(404, Some("capella"), b"{}");
    assert_eq!(response.fork_name(), Err(Error::HttpStatus(404)));
    assert_eq!(fetch_beacon_state(&response).err(), Some(Error::HttpStatus(404)));
    assert_eq!(answer(199, Some("capella"), b"").fork_name(), Err(Error::HttpStatus(199)));
    assert_eq!(answer(300, Some("capella"), b"").fork_name(), Err(Error::HttpStatus(300)));
    assert_eq!(answer(299, Some("capella"), b"").fork_name(), Ok(ForkName::Capella));
}

#[test]
fn response_with_an_unknown_fork_is_not_decoded() {
    let response = answer(200, Some("fulu"), b"");
    assert_eq!(fetch_beacon_state(&response).err(), Some(Error::InvalidConsensusVersion));
}

#[test]
fn response_with_a_body_that_is_no_state() {
    let response = answer(200, Some("deneb"), b"not a state");
    assert_eq!(fetch_beacon_state(&response).err(), Some(Error::SszError));
}
