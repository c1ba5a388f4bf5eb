use calaos_core::pem_files::{cert_candidates, has_pem_extension, key_candidates};
use calaos_core::wago_controller::{heartbeat_message, info_request, info_text, set_server_ip_command};

fn names(v: &[&str]) -> Vec<String> {
    v.iter().map(|s| s.to_string()).collect()
}

#[test]
fn pem_extension() {
    assert!(has_pem_extension("fullchain.pem"));
    assert!(has_pem_extension("a.pem"));
    assert!(has_pem_extension("..pem"));
    assert!(!has_pem_extension(".pem"));
    assert!(!has_pem_extension("pem"));
    assert!(!has_pem_extension("cert.pem.bak"));
    assert!(!has_pem_extension("cert.PEM"));
    assert!(!has_pem_extension("cert.crt"));
}

#[test]
fn certificates_are_looked_for_in_order() {
    let entries = names(&["readme.txt", "other.pem", "privkey.pem", "x.crt"]);
    assert_eq!(
        cert_candidates(&entries),
        names(&["fullchain.pem", "cert.pem", "other.pem", "privkey.pem"])
    );
    assert_eq!(cert_candidates(&vec![]), names(&["fullchain.pem", "cert.pem"]));
}

#[test]
fn keys_are_looked_for_in_order() {
    let entries = names(&["fullchain.pem", "notes", "z.pem"]);
    assert_eq!(key_candidates(&entries), names(&["privkey.pem", "key.pem", "fullchain.pem", "z.pem"]));
}

#[test]
fn heartbeat_messages() {
    assert_eq!(heartbeat_message(), "WAGO_HEARTBEAT");
    assert_eq!(info_request(), "WAGO_GET_INFO");
    assert_eq!(set_server_ip_command("192.168.0.2"), "WAGO_SET_SERVER_IP 192.168.0.2");
}

#[test]
fn info_reply_drops_its_terminator() {
    let reply = b"WAGO 750-881\0rest";
    assert_eq!(info_text(reply, 13), b"WAGO 750-881");
    assert_eq!(info_text(reply, 1), b"");
}

use calaos_core::pem_files::{certs_of_pem_files, choose_certs, choose_key, key_of_pem_files, KeyKind, PemError};

fn pem(label: &str, body: &str) -> Vec<u8> {
    format!("-----BEGIN {}-----\n{}\n-----END {}-----\n", label, body, label).into_bytes()
}

#[test]
fn certificates_of_the_first_file_that_has_some() {
    let files = vec![
        None,
        Some(b"no pem here".to_vec()),
        Some(pem("CERTIFICATE", "AQID")),
        Some(pem("CERTIFICATE", "BAUG")),
    ];
    assert_eq!(certs_of_pem_files(&files), Ok(vec![vec![1, 2, 3]]));
    let mut two = pem("CERTIFICATE", "AQID");
    two.extend(pem("CERTIFICATE", "BAUG"));
    assert_eq!(certs_of_pem_files(&vec![Some(two)]), Ok(vec![vec![1, 2, 3], vec![4, 5, 6]]));
    // a malformed block makes the file yield nothing
    assert_eq!(
        certs_of_pem_files(&vec![Some(pem("CERTIFICATE", "!!!!")), Some(pem("CERTIFICATE", "BAUG"))]),
        Ok(vec![vec![4, 5, 6]])
    );
    assert_eq!(certs_of_pem_files(&vec![None, Some(b"nothing".to_vec())]), Err(PemError::NotFound));
    assert_eq!(certs_of_pem_files(&vec![]), Err(PemError::NotFound));
}

#[test]
fn keys_prefer_pkcs8_then_rsa() {
    let mut both = pem("RSA PRIVATE KEY", "AQID");
    both.extend(pem("PRIVATE KEY", "BAUG"));
    assert_eq!(key_of_pem_files(&vec![Some(both)]), Ok((KeyKind::Pkcs8, vec![4, 5, 6])));
    assert_eq!(
        key_of_pem_files(&vec![None, Some(pem("CERTIFICATE", "AQID")), Some(pem("RSA PRIVATE KEY", "AQID"))]),
        Ok((KeyKind::Rsa, vec![1, 2, 3]))
    );
    assert_eq!(key_of_pem_files(&vec![Some(pem("PRIVATE KEY", "!!!!"))]), Err(PemError::InvalidInput));
    assert_eq!(key_of_pem_files(&vec![Some(b"nothing".to_vec())]), Err(PemError::NotFound));
}

#[test]
fn choices_over_parsed_files() {
    assert_eq!(
        choose_key(&vec![None, Some((None, None)), Some((None, Some(Ok(vec![7])))), Some((Some(Ok(vec![8])), None))]),
        Ok((KeyKind::Rsa, vec![7]))
    );
    assert_eq!(choose_key(&vec![Some((Some(Err(())), Some(Ok(vec![1]))))]), Err(PemError::InvalidInput));
    assert_eq!(choose_key(&vec![]), Err(PemError::NotFound));
    assert_eq!(
        choose_certs(&vec![Some(Err(())), Some(Ok(vec![])), None, Some(Ok(vec![vec![9]])), Some(Ok(vec![vec![1]]))]),
        Ok(vec![vec![9]])
    );
    assert_eq!(choose_certs(&vec![Some(Ok(vec![]))]), Err(PemError::NotFound));
}

use calaos_core::pem_files::{cert_sources, key_sources, Candidate};

#[test]
fn candidates_by_position() {
    let entries = names(&["readme.txt", "other.pem", "privkey.pem", "x.crt"]);
    assert_eq!(
        cert_sources(&entries),
        vec![
            Candidate::Named("fullchain.pem".to_string()),
            Candidate::Named("cert.pem".to_string()),
            Candidate::Listed(1),
            Candidate::Listed(2),
        ]
    );
    assert_eq!(
        key_sources(&names(&["a.pem"])),
        vec![
            Candidate::Named("privkey.pem".to_string()),
            Candidate::Named("key.pem".to_string()),
            Candidate::Listed(0),
        ]
    );
}
