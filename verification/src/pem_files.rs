//! The certificate chain and the private key of a TLS directory: which
//! files are tried, in what order, and what is taken from their PEM blocks
//! (the first file that yields certificates; a PKCS#8 key, else an RSA
//! one). Reading the files is the application's job; decoding the PEM
//! blocks is rustls-pemfile's.

use vstd::prelude::*;

use rustls_pemfile::{certs, pkcs8_private_keys, rsa_private_keys};

use crate::text::{append_str, chars_of};

verus! {

/// A file name with the extension `pem`: it ends in `.pem` and has a stem
/// in front of it.
pub open spec fn is_pem_name(name: Seq<char>) -> bool {
    name.len() > 4 && name.subrange(name.len() - 4, name.len() as int) =~= seq!['.', 'p', 'e', 'm']
}

/// Whether `name` has the extension `pem`.
pub fn has_pem_extension(name: &str) -> (r: bool)
    ensures
        r == is_pem_name(name@),
{
    let cs = chars_of(name);
    let n = cs.len();
    if n <= 4 {
        return false;
    }
    let r = cs[n - 4] == '.' && cs[n - 3] == 'p' && cs[n - 2] == 'e' && cs[n - 1] == 'm';
    proof {
        let tail = name@.subrange(n - 4, n as int);
        if r {
            assert(tail =~= seq!['.', 'p', 'e', 'm']);
        } else {
            assert(!(tail =~= seq!['.', 'p', 'e', 'm'])) by {
                if tail =~= seq!['.', 'p', 'e', 'm'] {
                    assert(tail[0] == name@[n - 4]);
                    assert(tail[1] == name@[n - 3]);
                    assert(tail[2] == name@[n - 2]);
                    assert(tail[3] == name@[n - 1]);
                }
            }
        }
    }
    r
}

/// The names of a directory listing that have the extension `pem`, in the
/// order of the listing.
pub open spec fn pem_names(entries: Seq<Seq<char>>) -> Seq<Seq<char>>
    decreases entries.len(),
{
    if entries.len() == 0 {
        Seq::empty()
    } else if is_pem_name(entries.last()) {
        pem_names(entries.drop_last()).push(entries.last())
    } else {
        pem_names(entries.drop_last())
    }
}

/// The views of a list of strings.
pub open spec fn views(v: Seq<String>) -> Seq<Seq<char>> {
    Seq::new(v.len(), |i: int| v[i]@)
}

/// The files to try, in order: the two preferred names, then every file
/// of the listing with the extension `pem`.
pub open spec fn candidates_spec(first: Seq<char>, second: Seq<char>, entries: Seq<Seq<char>>) -> Seq<
    Seq<char>,
> {
    seq![first, second] + pem_names(entries)
}

fn owned(s: &str) -> (r: String)
    ensures
        r@ == s@,
{
    let mut r = String::new();
    append_str(&mut r, s);
    r
}

fn candidates(first: &str, second: &str, entries: &Vec<String>) -> (r: Vec<String>)
    ensures
        views(r@) == candidates_spec(first@, second@, views(entries@)),
{
    let mut r: Vec<String> = Vec::new();
    r.push(owned(first));
    r.push(owned(second));
    let mut i: usize = 0;
    while i < entries.len()
        invariant
            i <= entries@.len(),
            views(r@) == candidates_spec(first@, second@, views(entries@.take(i as int))),
        decreases entries@.len() - i,
    {
        proof {
            assert(views(entries@.take(i + 1)).drop_last() =~= views(entries@.take(i as int)));
            assert(views(entries@.take(i + 1)).last() == entries@[i as int]@);
        }
        if has_pem_extension(entries[i].as_str()) {
            let name = owned(entries[i].as_str());
            let ghost before = r@;
            r.push(name);
            proof {
                assert(views(r@) =~= views(before).push(entries@[i as int]@));
                assert(seq![first@, second@] + pem_names(views(entries@.take(i + 1))) =~= (seq![
                    first@,
                    second@,
                ] + pem_names(views(entries@.take(i as int)))).push(entries@[i as int]@));
            }
        }
        i = i + 1;
    }
    assert(entries@.take(i as int) =~= entries@);
    r
}

/// The positions in a directory listing of the names that have the
/// extension `pem`, in order.
pub open spec fn pem_positions(entries: Seq<Seq<char>>) -> Seq<int>
    decreases entries.len(),
{
    if entries.len() == 0 {
        Seq::empty()
    } else if is_pem_name(entries.last()) {
        pem_positions(entries.drop_last()).push(entries.len() - 1)
    } else {
        pem_positions(entries.drop_last())
    }
}

/// The names at the PEM positions of a listing are its PEM names.
pub proof fn lemma_pem_positions_names(entries: Seq<Seq<char>>)
    ensures
        forall|i: int| 0 <= i < pem_positions(entries).len() ==> 0 <= #[trigger] pem_positions(entries)[i] < entries.len(),
        Seq::new(pem_positions(entries).len(), |i: int| entries[pem_positions(entries)[i]]) == pem_names(entries),
    decreases entries.len(),
{
    if entries.len() > 0 {
        let p = entries.drop_last();
        lemma_pem_positions_names(p);
        let pp = pem_positions(entries);
        let q = pem_positions(p);
        assert forall|i: int| 0 <= i < q.len() implies entries[q[i]] == p[q[i]] by {}
        if is_pem_name(entries.last()) {
            assert(Seq::new(pp.len(), |i: int| entries[pp[i]]) =~= Seq::new(q.len(), |i: int| p[q[i]]).push(entries.last()));
        } else {
            assert(Seq::new(pp.len(), |i: int| entries[pp[i]]) =~= Seq::new(q.len(), |i: int| p[q[i]]));
        }
    } else {
        assert(Seq::new(0, |i: int| entries[pem_positions(entries)[i]]) =~= pem_names(entries));
    }
}

/// A file to try: one of the preferred names, or the entry of the listing
/// at a position.
#[derive(Debug, PartialEq, Eq)]
pub enum Candidate {
    Named(String),
    Listed(usize),
}

pub enum CandidateView {
    Named(Seq<char>),
    Listed(int),
}

impl View for Candidate {
    type V = CandidateView;

    open spec fn view(&self) -> CandidateView {
        match self {
            Candidate::Named(n) => CandidateView::Named(n@),
            Candidate::Listed(i) => CandidateView::Listed(*i as int),
        }
    }
}

/// The files to try, in order: the two preferred names, then the entries of
/// the listing with the extension `pem`, by position.
pub open spec fn sources_spec(first: Seq<char>, second: Seq<char>, entries: Seq<Seq<char>>) -> Seq<
    CandidateView,
> {
    seq![CandidateView::Named(first), CandidateView::Named(second)] + pem_positions(entries).map_values(
        |i: int| CandidateView::Listed(i),
    )
}

fn sources(first: &str, second: &str, entries: &Vec<String>) -> (r: Vec<Candidate>)
    ensures
        r@.map_values(|c: Candidate| c@) == sources_spec(first@, second@, views(entries@)),
{
    let mut r: Vec<Candidate> = Vec::new();
    r.push(Candidate::Named(owned(first)));
    r.push(Candidate::Named(owned(second)));
    let mut i: usize = 0;
    while i < entries.len()
        invariant
            i <= entries@.len(),
            r@.map_values(|c: Candidate| c@) == sources_spec(first@, second@, views(entries@.take(i as int))),
        decreases entries@.len() - i,
    {
        proof {
            assert(views(entries@.take(i + 1)).drop_last() =~= views(entries@.take(i as int)));
            assert(views(entries@.take(i + 1)).last() == entries@[i as int]@);
            assert(views(entries@.take(i + 1)).len() == i + 1);
        }
        let ghost before = r@;
        if has_pem_extension(entries[i].as_str()) {
            r.push(Candidate::Listed(i));
            proof {
                assert(r@.map_values(|c: Candidate| c@) =~= before.map_values(|c: Candidate| c@).push(
                    CandidateView::Listed(i as int),
                ));
                assert(pem_positions(views(entries@.take(i + 1))) == pem_positions(
                    views(entries@.take(i as int)),
                ).push(i as int));
                assert(sources_spec(first@, second@, views(entries@.take(i + 1))) =~= sources_spec(
                    first@,
                    second@,
                    views(entries@.take(i as int)),
                ).push(CandidateView::Listed(i as int)));
            }
        }
        i = i + 1;
    }
    assert(entries@.take(i as int) =~= entries@);
    r
}

/// The files to try for the certificate chain of a TLS directory, as
/// `cert_candidates`, with the entries of the listing given by position.
pub fn cert_sources(entries: &Vec<String>) -> (r: Vec<Candidate>)
    ensures
        r@.map_values(|c: Candidate| c@) == sources_spec("fullchain.pem"@, "cert.pem"@, views(entries@)),
{
    sources("fullchain.pem", "cert.pem", entries)
}

/// The files to try for the private key of a TLS directory, as
/// `key_candidates`, with the entries of the listing given by position.
pub fn key_sources(entries: &Vec<String>) -> (r: Vec<Candidate>)
    ensures
        r@.map_values(|c: Candidate| c@) == sources_spec("privkey.pem"@, "key.pem"@, views(entries@)),
{
    sources("privkey.pem", "key.pem", entries)
}

/// The files to try for the certificate chain of a TLS directory, in
/// order: `fullchain.pem`, `cert.pem`, then every file of the listing
/// `entries` with the extension `pem`.
pub fn cert_candidates(entries: &Vec<String>) -> (r: Vec<String>)
    ensures
        views(r@) == candidates_spec("fullchain.pem"@, "cert.pem"@, views(entries@)),
{
    candidates("fullchain.pem", "cert.pem", entries)
}

/// The files to try for the private key of a TLS directory, in order:
/// `privkey.pem`, `key.pem`, then every file of the listing `entries` with
/// the extension `pem`.
pub fn key_candidates(entries: &Vec<String>) -> (r: Vec<String>)
    ensures
        views(r@) == candidates_spec("privkey.pem"@, "key.pem"@, views(entries@)),
{
    candidates("privkey.pem", "key.pem", entries)
}

/// What rustls-pemfile's `pkcs8_private_keys` yields first for a PEM text:
/// nothing, a key (its DER bytes), or an error for a malformed block.
pub uninterp spec fn pem_first_pkcs8_key(pem: Seq<u8>) -> Option<Result<Seq<u8>, ()>>;

/// What rustls-pemfile's `rsa_private_keys` yields first for a PEM text, as
/// `pem_first_pkcs8_key`.
pub uninterp spec fn pem_first_rsa_key(pem: Seq<u8>) -> Option<Result<Seq<u8>, ()>>;

/// What collecting rustls-pemfile's `certs` gives for a PEM text: the DER
/// bytes of its certificates in order, or an error when a block is
/// malformed.
pub uninterp spec fn pem_certs(pem: Seq<u8>) -> Result<Seq<Seq<u8>>, ()>;

/// The view of a key item.
pub open spec fn key_item_view(x: Option<Result<Vec<u8>, ()>>) -> Option<Result<Seq<u8>, ()>> {
    match x {
        Some(Ok(k)) => Some(Ok(k@)),
        Some(Err(e)) => Some(Err(e)),
        None => None,
    }
}

/// The views of a list of byte strings.
pub open spec fn byte_seqs(v: Seq<Vec<u8>>) -> Seq<Seq<u8>> {
    Seq::new(v.len(), |i: int| v[i]@)
}

/// The view of a certificate list or its error.
pub open spec fn certs_view(x: Result<Vec<Vec<u8>>, ()>) -> Result<Seq<Seq<u8>>, ()> {
    match x {
        Ok(v) => Ok(byte_seqs(v@)),
        Err(e) => Err(e),
    }
}

/// rustls-pemfile's `pkcs8_private_keys`, its first item: claimed to be
/// `pem_first_pkcs8_key` of the bytes, a function of the bytes alone.
#[verifier::external_body]
fn first_pkcs8_key(pem: &[u8]) -> (r: Option<Result<Vec<u8>, ()>>)
    ensures
        key_item_view(r) == pem_first_pkcs8_key(pem@),
{
    let mut reader: &[u8] = pem;
    let item = pkcs8_private_keys(&mut reader).next();
    match item {
        Some(Ok(key)) => Some(Ok(key.secret_pkcs8_der().to_vec())),
        Some(Err(_)) => Some(Err(())),
        None => None,
    }
}

/// rustls-pemfile's `rsa_private_keys`, its first item: claimed to be
/// `pem_first_rsa_key` of the bytes, a function of the bytes alone.
#[verifier::external_body]
fn first_rsa_key(pem: &[u8]) -> (r: Option<Result<Vec<u8>, ()>>)
    ensures
        key_item_view(r) == pem_first_rsa_key(pem@),
{
    let mut reader: &[u8] = pem;
    let item = rsa_private_keys(&mut reader).next();
    match item {
        Some(Ok(key)) => Some(Ok(key.secret_pkcs1_der().to_vec())),
        Some(Err(_)) => Some(Err(())),
        None => None,
    }
}

/// rustls-pemfile's `certs`, collected: claimed to be `pem_certs` of the
/// bytes, a function of the bytes alone.
#[verifier::external_body]
fn pem_certificates(pem: &[u8]) -> (r: Result<Vec<Vec<u8>>, ()>)
    ensures
        certs_view(r) == pem_certs(pem@),
{
    let mut reader: &[u8] = pem;
    let collected: Result<Vec<_>, _> = certs(&mut reader).collect();
    match collected {
        Ok(cs) => Ok(cs.iter().map(|c| c.as_ref().to_vec()).collect()),
        Err(_) => Err(()),
    }
}

/// The kind of a private key.
#[derive(Debug, Clone, Copy, PartialEq, Eq, Structural)]
pub enum KeyKind {
    Pkcs8,
    Rsa,
}

/// Why no certificate chain or key was taken: a malformed block in the
/// file that was read, or no file yielding one.
#[derive(Debug, Clone, Copy, PartialEq, Eq, Structural)]
pub enum PemError {
    InvalidInput,
    NotFound,
}

/// What each candidate file gives for the key, when it could be read: its
/// first PKCS#8 item and its first RSA item.
pub type KeyItems = Option<(Option<Result<Vec<u8>, ()>>, Option<Result<Vec<u8>, ()>>)>;

/// The view of what a file gives for the key.
pub open spec fn key_items_view(x: KeyItems) -> Option<(Option<Result<Seq<u8>, ()>>, Option<Result<Seq<u8>, ()>>)> {
    match x {
        Some((a, b)) => Some((key_item_view(a), key_item_view(b))),
        None => None,
    }
}

/// The key taken from the candidate files, in order: the first file whose
/// PKCS#8 or RSA item comes first decides, PKCS#8 before RSA; a malformed
/// first item is an error; files that cannot be read or hold no key are
/// passed over.
pub open spec fn key_choice_of(
    found: Seq<Option<(Option<Result<Seq<u8>, ()>>, Option<Result<Seq<u8>, ()>>)>>,
) -> Result<(KeyKind, Seq<u8>), PemError>
    decreases found.len(),
{
    if found.len() == 0 {
        Err(PemError::NotFound)
    } else {
        match found[0] {
            Some((Some(Ok(k)), _)) => Ok((KeyKind::Pkcs8, k)),
            Some((Some(Err(_)), _)) => Err(PemError::InvalidInput),
            Some((None, Some(Ok(k)))) => Ok((KeyKind::Rsa, k)),
            Some((None, Some(Err(_)))) => Err(PemError::InvalidInput),
            _ => key_choice_of(found.skip(1)),
        }
    }
}

/// The view of a key or its error.
pub open spec fn key_view(r: Result<(KeyKind, Vec<u8>), PemError>) -> Result<(KeyKind, Seq<u8>), PemError> {
    match r {
        Ok((k, b)) => Ok((k, b@)),
        Err(e) => Err(e),
    }
}

/// The key taken from what the candidate files give.
pub fn choose_key(found: &Vec<KeyItems>) -> (r: Result<(KeyKind, Vec<u8>), PemError>)
    ensures
        key_view(r) == key_choice_of(Seq::new(found@.len(), |i: int| key_items_view(found@[i]))),
{
    let ghost fv = Seq::new(found@.len(), |i: int| key_items_view(found@[i]));
    assert(fv.skip(0) =~= fv);
    let mut i: usize = 0;
    while i < found.len()
        invariant
            i <= found@.len(),
            fv == Seq::new(found@.len(), |j: int| key_items_view(found@[j])),
            key_choice_of(fv) == key_choice_of(fv.skip(i as int)),
        decreases found@.len() - i,
    {
        let ghost rest = fv.skip(i as int);
        assert(rest[0] == fv[i as int]);
        assert(rest.skip(1) =~= fv.skip(i + 1));
        match &found[i] {
            Some((Some(Ok(k)), _)) => {
                return Ok((KeyKind::Pkcs8, vstd::slice::slice_to_vec(k.as_slice())));
            },
            Some((Some(Err(_)), _)) => {
                return Err(PemError::InvalidInput);
            },
            Some((None, Some(Ok(k)))) => {
                return Ok((KeyKind::Rsa, vstd::slice::slice_to_vec(k.as_slice())));
            },
            Some((None, Some(Err(_)))) => {
                return Err(PemError::InvalidInput);
            },
            _ => {},
        }
        i = i + 1;
    }
    assert(fv.skip(i as int).len() == 0);
    Err(PemError::NotFound)
}

/// What the candidate files give for the key, by rustls-pemfile.
pub open spec fn key_items_of(contents: Seq<Option<Vec<u8>>>) -> Seq<
    Option<(Option<Result<Seq<u8>, ()>>, Option<Result<Seq<u8>, ()>>)>,
> {
    Seq::new(
        contents.len(),
        |i: int|
            match contents[i] {
                Some(b) => Some((pem_first_pkcs8_key(b@), pem_first_rsa_key(b@))),
                None => None,
            },
    )
}

/// The private key of the candidate files, given their contents in order
/// (`None` for a file that could not be read): a PKCS#8 key is preferred,
/// an RSA key is the fallback.
pub fn key_of_pem_files(contents: &Vec<Option<Vec<u8>>>) -> (r: Result<(KeyKind, Vec<u8>), PemError>)
    ensures
        key_view(r) == key_choice_of(key_items_of(contents@)),
{
    let mut found: Vec<KeyItems> = Vec::new();
    let mut i: usize = 0;
    while i < contents.len()
        invariant
            i <= contents@.len(),
            found@.len() == i,
            forall|j: int| 0 <= j < i ==> key_items_view(#[trigger] found@[j]) == key_items_of(contents@)[j],
        decreases contents@.len() - i,
    {
        let item: KeyItems = match &contents[i] {
            Some(b) => Some((first_pkcs8_key(b.as_slice()), first_rsa_key(b.as_slice()))),
            None => None,
        };
        found.push(item);
        i = i + 1;
    }
    assert(Seq::new(found@.len(), |j: int| key_items_view(found@[j])) =~= key_items_of(contents@));
    choose_key(&found)
}

/// The certificates taken from the candidate files, in order: those of the
/// first file that yields at least one and no malformed block.
pub open spec fn certs_choice_of(rs: Seq<Option<Result<Seq<Seq<u8>>, ()>>>) -> Result<Seq<Seq<u8>>, PemError>
    decreases rs.len(),
{
    if rs.len() == 0 {
        Err(PemError::NotFound)
    } else {
        match rs[0] {
            Some(Ok(c)) => if c.len() > 0 {
                Ok(c)
            } else {
                certs_choice_of(rs.skip(1))
            },
            _ => certs_choice_of(rs.skip(1)),
        }
    }
}

/// The view of what a file gives for the certificates.
pub open spec fn cert_items_view(x: Option<Result<Vec<Vec<u8>>, ()>>) -> Option<Result<Seq<Seq<u8>>, ()>> {
    match x {
        Some(r) => Some(certs_view(r)),
        None => None,
    }
}

fn copy_certs(c: &Vec<Vec<u8>>) -> (r: Vec<Vec<u8>>)
    ensures
        byte_seqs(r@) == byte_seqs(c@),
{
    let mut r: Vec<Vec<u8>> = Vec::new();
    let mut i: usize = 0;
    while i < c.len()
        invariant
            i <= c@.len(),
            r@.len() == i,
            forall|j: int| 0 <= j < i ==> (#[trigger] r@[j])@ == c@[j]@,
        decreases c@.len() - i,
    {
        r.push(vstd::slice::slice_to_vec(c[i].as_slice()));
        i = i + 1;
    }
    assert(byte_seqs(r@) =~= byte_seqs(c@));
    r
}

/// The view of a certificate chain or its error.
pub open spec fn chain_view(r: Result<Vec<Vec<u8>>, PemError>) -> Result<Seq<Seq<u8>>, PemError> {
    match r {
        Ok(v) => Ok(byte_seqs(v@)),
        Err(e) => Err(e),
    }
}

/// The certificates taken from what the candidate files give.
pub fn choose_certs(found: &Vec<Option<Result<Vec<Vec<u8>>, ()>>>) -> (r: Result<Vec<Vec<u8>>, PemError>)
    ensures
        chain_view(r) == certs_choice_of(Seq::new(found@.len(), |i: int| cert_items_view(found@[i]))),
{
    let ghost fv = Seq::new(found@.len(), |i: int| cert_items_view(found@[i]));
    assert(fv.skip(0) =~= fv);
    let mut i: usize = 0;
    while i < found.len()
        invariant
            i <= found@.len(),
            fv == Seq::new(found@.len(), |j: int| cert_items_view(found@[j])),
            certs_choice_of(fv) == certs_choice_of(fv.skip(i as int)),
        decreases found@.len() - i,
    {
        let ghost rest = fv.skip(i as int);
        assert(rest[0] == fv[i as int]);
        assert(rest.skip(1) =~= fv.skip(i + 1));
        match &found[i] {
            Some(Ok(c)) => {
                if c.len() > 0 {
                    return Ok(copy_certs(c));
                }
            },
            _ => {},
        }
        i = i + 1;
    }
    assert(fv.skip(i as int).len() == 0);
    Err(PemError::NotFound)
}

/// What the candidate files give for the certificates, by rustls-pemfile.
pub open spec fn cert_items_of(contents: Seq<Option<Vec<u8>>>) -> Seq<Option<Result<Seq<Seq<u8>>, ()>>> {
    Seq::new(
        contents.len(),
        |i: int|
            match contents[i] {
                Some(b) => Some(pem_certs(b@)),
                None => None,
            },
    )
}

/// The certificate chain of the candidate files, given their contents in
/// order (`None` for a file that could not be read): that of the first
/// file that yields certificates.
pub fn certs_of_pem_files(contents: &Vec<Option<Vec<u8>>>) -> (r: Result<Vec<Vec<u8>>, PemError>)
    ensures
        chain_view(r) == certs_choice_of(cert_items_of(contents@)),
{
    let mut found: Vec<Option<Result<Vec<Vec<u8>>, ()>>> = Vec::new();
    let mut i: usize = 0;
    while i < contents.len()
        invariant
            i <= contents@.len(),
            found@.len() == i,
            forall|j: int| 0 <= j < i ==> cert_items_view(#[trigger] found@[j]) == cert_items_of(contents@)[j],
        decreases contents@.len() - i,
    {
        let item = match &contents[i] {
            Some(b) => Some(pem_certificates(b.as_slice())),
            None => None,
        };
        found.push(item);
        i = i + 1;
    }
    assert(Seq::new(found@.len(), |j: int| cert_items_view(found@[j])) =~= cert_items_of(contents@));
    choose_certs(&found)
}

} // verus!
