//! The TLS certificate the server presents: PEM texts for the certificate and
//! its key, and the SHA-256 fingerprint of the certificate that browsers pin.

use vstd::prelude::*;
use crate::text::{hex_lower, hex_lower_string};
use sha2::Digest;
use chrono::Datelike;
use rcgen::{date_time_ymd, CertificateParams, DnType, KeyPair, SanType};

verus! {

/// The SHA-256 digest of a byte string, as `sha2::Sha256::digest` computes it.
pub uninterp spec fn sha256_digest(data: Seq<u8>) -> Seq<u8>;

/// The binary contents of a PEM document, as `pem::parse` reads them, or
/// `None` where it reports an error.
pub uninterp spec fn pem_decoded(text: Seq<char>) -> Option<Seq<u8>>;

/// The PEM document `pem::encode` writes for a tag and binary contents.
pub uninterp spec fn pem_encoded(tag: Seq<char>, contents: Seq<u8>) -> Seq<char>;

/// A PEM tag that the framing lines carry unambiguously: non-empty, made of
/// ASCII capital letters and spaces.
pub open spec fn plain_pem_tag(tag: Seq<char>) -> bool {
    &&& tag.len() > 0
    &&& forall|i: int| 0 <= i < tag.len() ==> ('A' <= #[trigger] tag[i] <= 'Z' || tag[i] == ' ')
}

/// The fingerprint of a DER certificate: its SHA-256 digest in lowercase hex.
pub open spec fn fingerprint_of(der: Seq<u8>) -> Seq<char> {
    hex_lower(sha256_digest(der))
}

/// The fingerprint a server finds when it loads a certificate from PEM text.
pub open spec fn loaded_fingerprint(cert_pem: Seq<char>) -> Option<Seq<char>> {
    match pem_decoded(cert_pem) {
        Some(der) => Some(fingerprint_of(der)),
        None => None,
    }
}

/// `sha2::Sha256::digest`: the 32-byte SHA-256 digest of the data.
#[verifier::external_body]
fn sha256(data: &[u8]) -> (d: Vec<u8>)
    ensures
        d@ == sha256_digest(data@),
        d@.len() == 32,
{
    sha2::Sha256::digest(data).to_vec()
}

/// `pem::PemError`, carried through opaquely.
#[verifier::external_type_specification]
#[verifier::external_body]
pub struct ExPemError(pem::PemError);

/// `pem::parse` followed by `Pem::into_contents`: the binary contents of the
/// PEM document in the text, or the parser's error.
#[verifier::external_body]
fn pem_contents(text: &str) -> (r: Result<Vec<u8>, pem::PemError>)
    ensures
        r is Ok <==> pem_decoded(text@) is Some,
        r matches Ok(v) ==> Some(v@) == pem_decoded(text@),
{
    match pem::parse(text) {
        Ok(p) => Ok(p.into_contents()),
        Err(e) => Err(e),
    }
}

/// `pem::encode` of `Pem::new(tag, contents)`. The source writes
/// `-----BEGIN tag-----`, the base64 of the contents in lines, and
/// `-----END tag-----`, each line ended by CRLF; its parser reads exactly that
/// framing back, so for a plain tag the contents come back unchanged. What the
/// text is, character by character, is left to the name `pem_encoded`.
#[verifier::external_body]
fn pem_encode(tag: &str, contents: &[u8]) -> (s: String)
    ensures
        s@ == pem_encoded(tag@, contents@),
        plain_pem_tag(tag@) ==> pem_decoded(s@) == Some(contents@),
{
    pem::encode(&pem::Pem::new(tag, contents))
}

/// The fingerprint of a DER certificate: its SHA-256 digest as lowercase hex.
pub fn fingerprint_sha256_hex(data: &[u8]) -> (s: String)
    ensures
        s@ == fingerprint_of(data@),
        s@.len() == 64,
{
    let digest = sha256(data);
    hex_lower_string(digest.as_slice())
}

/// Why certificate material could not be loaded or made.
pub enum CertError {
    /// The certificate file is not a PEM document.
    Pem(pem::PemError),
    /// Key generation, the certificate's parameters or its signing failed.
    Rcgen(rcgen::Error),
    /// The system clock reads a time before 1970, or beyond the dates chrono
    /// represents.
    ClockOutOfRange,
    /// Today's date, or the expiry date, lies outside the years `0..=9999`
    /// that a certificate's validity can be written in.
    DateOutOfRange,
}

/// How many days a generated certificate stays valid.
pub const CERT_VALIDITY_DAYS: i64 = 14;

/// A date of the proleptic Gregorian calendar.
#[derive(Clone, Copy)]
pub struct CalendarDate {
    pub year: i32,
    pub month: u8,
    pub day: u8,
}

/// Whether a year is a leap year of the Gregorian calendar.
pub open spec fn is_leap_year(year: int) -> bool {
    (year % 4 == 0 && year % 100 != 0) || year % 400 == 0
}

/// The number of days in a month of a year.
pub open spec fn days_in_month(year: int, month: int) -> int {
    if month == 2 {
        if is_leap_year(year) {
            29
        } else {
            28
        }
    } else if month == 4 || month == 6 || month == 9 || month == 11 {
        30
    } else {
        31
    }
}

/// Whether a date names a day that exists in the calendar.
pub open spec fn valid_date(d: CalendarDate) -> bool {
    &&& 1 <= d.month <= 12
    &&& 1 <= d.day <= days_in_month(d.year as int, d.month as int)
}

/// A date as (year, month, day).
pub open spec fn date_triple(d: CalendarDate) -> (int, int, int) {
    (d.year as int, d.month as int, d.day as int)
}

/// The number of days from 1970-01-01 to the date `year`-`month`-`day`
/// (negative before it), counted in 400-year eras of 146097 days from March 1
/// of year 0.
pub open spec fn days_from_civil(year: int, month: int, day: int) -> int {
    let y = if month <= 2 { year - 1 } else { year };
    let era = y / 400;
    let yoe = y - era * 400;
    let mp = (month + 9) % 12;
    let doy = (153 * mp + 2) / 5 + day - 1;
    let doe = yoe * 365 + yoe / 4 - yoe / 100 + doy;
    era * 146097 + doe - 719468
}

/// The date (year, month, day) that lies `days` days after 1970-01-01: the
/// inverse of `days_from_civil`.
pub open spec fn civil_from_days(days: int) -> (int, int, int) {
    let z = days + 719468;
    let era = z / 146097;
    let doe = z - era * 146097;
    let yoe = (doe - doe / 1460 + doe / 36524 - doe / 146096) / 365;
    let doy = doe - (365 * yoe + yoe / 4 - yoe / 100);
    let mp = (5 * doy + 2) / 153;
    let day = doy - (153 * mp + 2) / 5 + 1;
    let month = if mp < 10 { mp + 3 } else { mp - 9 };
    let year = yoe + era * 400;
    (if month <= 2 { year + 1 } else { year }, month, day)
}

/// The calendar date `days` days after the date `year`-`month`-`day`.
pub open spec fn date_after_days(year: int, month: int, day: int, days: int) -> (int, int, int) {
    civil_from_days(days_from_civil(year, month, day) + days)
}

/// The last day a certificate made on `today` is valid.
pub open spec fn expiry_of(today: CalendarDate) -> (int, int, int) {
    date_after_days(today.year as int, today.month as int, today.day as int, CERT_VALIDITY_DAYS as int)
}

/// Whether a certificate can be made on `today`: both its first and its last
/// day of validity fall in the years `0..=9999`, the years a certificate's
/// validity can be written in.
pub open spec fn plan_in_range(today: CalendarDate) -> bool {
    &&& 0 <= today.year <= 9999
    &&& 0 <= expiry_of(today).0 <= 9999
}

/// A subject alternative name: a DNS name, or an IPv4 or IPv6 address given by
/// its octets.
pub enum SubjectAltName {
    Dns(String),
    Ipv4([u8; 4]),
    Ipv6([u8; 16]),
}

/// A subject alternative name as (whether it is an IP address, the DNS name's
/// text, the address's octets); the part that does not apply is empty.
pub open spec fn alt_name_view(n: SubjectAltName) -> (bool, Seq<char>, Seq<u8>) {
    match n {
        SubjectAltName::Dns(s) => (false, s@, Seq::<u8>::empty()),
        SubjectAltName::Ipv4(a) => (true, Seq::<char>::empty(), a@),
        SubjectAltName::Ipv6(a) => (true, Seq::<char>::empty(), a@),
    }
}

/// The names a generated certificate is issued for, in order: the DNS name
/// `localhost`, the IPv4 address 127.0.0.1 and the IPv6 address ::1.
pub open spec fn localhost_names() -> Seq<(bool, Seq<char>, Seq<u8>)> {
    seq![
        (false, "localhost"@, Seq::<u8>::empty()),
        (true, Seq::<char>::empty(), seq![127u8, 0u8, 0u8, 1u8]),
        (true, Seq::<char>::empty(), Seq::new(16, |i: int| if i == 15 { 1u8 } else { 0u8 })),
    ]
}

/// What a certificate states of its holder and its validity: its subject
/// alternative names in order, its common name, and its first and last days of
/// validity.
pub open spec fn planned_fields(today: CalendarDate) -> (Seq<(bool, Seq<char>, Seq<u8>)>, Seq<char>, (int, int, int), (int, int, int)) {
    (localhost_names(), "localhost"@, date_triple(today), expiry_of(today))
}

/// What a DER certificate made by rcgen carries: its subject alternative names
/// in order (each as `alt_name_view` writes one), the common name of its
/// subject, and its first and last days of validity (midnight UTC).
pub uninterp spec fn certificate_fields(der: Seq<u8>) -> (Seq<(bool, Seq<char>, Seq<u8>)>, Seq<char>, (int, int, int), (int, int, int));

/// The subject public key a DER certificate carries (the bits of its
/// `subjectPublicKey`).
pub uninterp spec fn certificate_public_key(der: Seq<u8>) -> Seq<u8>;

/// Whether the signature of a DER certificate verifies under a public key.
pub uninterp spec fn signed_with(der: Seq<u8>, public_key: Seq<u8>) -> bool;

/// The public key of the private key a PKCS#8 DER document holds.
pub uninterp spec fn pkcs8_public_key(der: Seq<u8>) -> Seq<u8>;

/// Whether a PKCS#8 DER document holds an ECDSA P-256 private key.
pub uninterp spec fn pkcs8_is_p256(der: Seq<u8>) -> bool;

/// The current date in UTC: `SystemTime::now().duration_since(UNIX_EPOCH)`,
/// then `chrono::DateTime::from_timestamp` and its calendar date (`date_naive`,
/// `year`, `month`, `day`). `None` when the clock reads before 1970 (where
/// `chrono::Utc::now` panics) or beyond chrono's range. The date depends on the
/// clock, so only that it is a real date is stated.
#[verifier::external_body]
fn utc_today() -> (r: Option<CalendarDate>)
    ensures
        r matches Some(d) ==> valid_date(d),
{
    let since = std::time::SystemTime::now().duration_since(std::time::UNIX_EPOCH).ok()?;
    let now = chrono::DateTime::from_timestamp(since.as_secs() as i64, since.subsec_nanos())?;
    let today = now.date_naive();
    Some(CalendarDate { year: today.year(), month: today.month() as u8, day: today.day() as u8 })
}

/// `NaiveDate + TimeDelta::days(days)`: the date `days` days later in the
/// proleptic Gregorian calendar chrono counts in, for a date well inside
/// chrono's range (so that neither `from_ymd_opt` fails nor the sum overflows).
#[verifier::external_body]
fn date_after(date: &CalendarDate, days: i64) -> (r: CalendarDate)
    requires
        valid_date(*date),
        -9999 <= date.year <= 9999,
        0 <= days <= 366,
    ensures
        valid_date(r),
        date_triple(r) == date_after_days(
            date.year as int,
            date.month as int,
            date.day as int,
            days as int,
        ),
{
    let start = chrono::NaiveDate::from_ymd_opt(date.year, date.month as u32, date.day as u32).unwrap();
    let later = start + chrono::TimeDelta::days(days);
    CalendarDate { year: later.year(), month: later.month() as u8, day: later.day() as u8 }
}

/// What a certificate is to state: the names it is issued for, its common
/// name, and its first and last days of validity.
pub struct CertificatePlan {
    pub names: Vec<SubjectAltName>,
    pub common_name: String,
    pub not_before: CalendarDate,
    pub not_after: CalendarDate,
}

impl CertificatePlan {
    /// The names, common name and validity days the plan holds.
    pub open spec fn fields(&self) -> (Seq<(bool, Seq<char>, Seq<u8>)>, Seq<char>, (int, int, int), (int, int, int)) {
        (
            self.names@.map_values(|n: SubjectAltName| alt_name_view(n)),
            self.common_name@,
            date_triple(self.not_before),
            date_triple(self.not_after),
        )
    }
}

/// The plan of the certificate a server makes on `today`: issued for the DNS
/// name `localhost` and the addresses 127.0.0.1 and ::1, with common name
/// `localhost`, valid from `today` until `CERT_VALIDITY_DAYS` days later;
/// `DateOutOfRange` when either day falls outside the years `0..=9999`.
pub fn certificate_plan(today: &CalendarDate) -> (r: Result<CertificatePlan, CertError>)
    requires
        valid_date(*today),
    ensures
        r is Ok <==> plan_in_range(*today),
        r matches Err(e) ==> e is DateOutOfRange,
        r matches Ok(p) ==> {
            &&& p.fields() == planned_fields(*today)
            &&& p.not_before == *today
            &&& valid_date(p.not_before)
            &&& valid_date(p.not_after)
        },
{
    if today.year < 0 || today.year > 9999 {
        return Err(CertError::DateOutOfRange);
    }
    let expiry = date_after(today, CERT_VALIDITY_DAYS);
    if expiry.year < 0 || expiry.year > 9999 {
        return Err(CertError::DateOutOfRange);
    }
    let v4: [u8; 4] = [127, 0, 0, 1];
    let v6: [u8; 16] = [0, 0, 0, 0, 0, 0, 0, 0, 0, 0, 0, 0, 0, 0, 0, 1];
    let names = vec![
        SubjectAltName::Dns(String::from_str("localhost")),
        SubjectAltName::Ipv4(v4),
        SubjectAltName::Ipv6(v6),
    ];
    let plan = CertificatePlan {
        names,
        common_name: String::from_str("localhost"),
        not_before: *today,
        not_after: expiry,
    };
    assert(v4@ =~= seq![127u8, 0u8, 0u8, 1u8]);
    assert(v6@ =~= Seq::new(16, |i: int| if i == 15 { 1u8 } else { 0u8 }));
    assert(plan.names@.map_values(|n: SubjectAltName| alt_name_view(n)) =~= localhost_names());
    Ok(plan)
}

/// `rcgen::Error`, carried through opaquely.
#[verifier::external_type_specification]
#[verifier::external_body]
pub struct ExRcgenError(rcgen::Error);

/// `rcgen::KeyPair::generate_for(&rcgen::PKCS_ECDSA_P256_SHA256)` and
/// `serialize_der`: a fresh random ECDSA P-256 private key as a PKCS#8 DER
/// document (ring's `EcdsaKeyPair::generate_pkcs8`). `serialize_der` panics only
/// for a remote key pair, and this one is local. Which key it is depends on
/// chance; that it is a P-256 key holds of every outcome.
#[verifier::external_body]
fn generate_p256_key() -> (r: Result<Vec<u8>, rcgen::Error>)
    ensures
        r matches Ok(der) ==> pkcs8_is_p256(der@),
{
    Ok(rcgen::KeyPair::generate_for(&rcgen::PKCS_ECDSA_P256_SHA256)?.serialize_der())
}

/// The plan as `rcgen::CertificateParams` (a `DistinguishedName` holding only
/// the common name; each name as `SanType::DnsName` or `SanType::IpAddress`;
/// validity from midnight UTC of the two days by `date_time_ymd`), signed
/// (`self_signed`) with the key that `KeyPair::try_from` reads from the PKCS#8
/// DER, returned as DER. `date_time_ymd` panics on a day that does not exist,
/// and writing a year outside `0..=9999` panics in yasna, so both are left out.
/// The certificate carries what it was given, and the key's public key, and is
/// signed with it; its signature is randomised, so its bytes are described only
/// through the names above.
#[verifier::external_body]
fn self_signed_certificate(plan: &CertificatePlan, key_der: &[u8]) -> (r: Result<Vec<u8>, rcgen::Error>)
    requires
        valid_date(plan.not_before),
        valid_date(plan.not_after),
        0 <= plan.not_before.year <= 9999,
        0 <= plan.not_after.year <= 9999,
    ensures
        r matches Ok(der) ==> {
            &&& certificate_fields(der@) == plan.fields()
            &&& certificate_public_key(der@) == pkcs8_public_key(key_der@)
            &&& signed_with(der@, pkcs8_public_key(key_der@))
        },
{
    let mut params = CertificateParams::default();
    params.distinguished_name.push(DnType::CommonName, plan.common_name.as_str());
    for name in &plan.names {
        params.subject_alt_names.push(match name {
            SubjectAltName::Dns(s) => SanType::DnsName(s.clone().try_into()?),
            SubjectAltName::Ipv4(a) => SanType::IpAddress((*a).into()),
            SubjectAltName::Ipv6(a) => SanType::IpAddress((*a).into()),
        });
    }
    let (from, to) = (&plan.not_before, &plan.not_after);
    params.not_before = date_time_ymd(from.year, from.month, from.day);
    params.not_after = date_time_ymd(to.year, to.month, to.day);
    Ok(params.self_signed(&KeyPair::try_from(key_der)?)?.der().to_vec())
}

/// Whether a server reuses the certificate it saved earlier: only when both
/// the certificate file and the key file exist; otherwise it generates new
/// material and writes both.
pub fn reuse_saved_material(cert_exists: bool, key_exists: bool) -> (b: bool)
    ensures
        b == (cert_exists && key_exists),
{
    cert_exists && key_exists
}

/// The certificate the server presents over TLS and QUIC, with its key, and
/// the fingerprint browsers pin for WebTransport.
pub struct CertificateMaterial {
    cert_pem: String,
    key_pem: String,
    pub fingerprint_hex: String,
}

impl CertificateMaterial {
    /// The certificate as PEM text.
    pub closed spec fn cert_pem_text(&self) -> Seq<char> {
        self.cert_pem@
    }

    /// The fingerprint, as lowercase hex text.
    pub closed spec fn fingerprint_text(&self) -> Seq<char> {
        self.fingerprint_hex@
    }

    /// The private key as PEM text.
    pub closed spec fn key_pem_text(&self) -> Seq<char> {
        self.key_pem@
    }

    /// The certificate as PEM text.
    pub fn cert_pem(&self) -> (s: &str)
        ensures
            s@ == self.cert_pem_text(),
    {
        self.cert_pem.as_str()
    }

    /// The private key as PEM text.
    pub fn key_pem(&self) -> (s: &str)
        ensures
            s@ == self.key_pem_text(),
    {
        self.key_pem.as_str()
    }

    /// Whether this is the material a server had when it saved `cert_pem` and
    /// `key_pem` and loaded them back: the texts as they were, and the
    /// fingerprint of the certificate's binary contents.
    pub open spec fn loaded_from(&self, cert_pem: Seq<char>, key_pem: Seq<char>) -> bool {
        &&& self.cert_pem_text() == cert_pem
        &&& self.key_pem_text() == key_pem
        &&& Some(self.fingerprint_text()) == loaded_fingerprint(cert_pem)
    }

    /// Whether this material holds a DER certificate and a DER private key as
    /// PEM texts under the tags `CERTIFICATE` and `PRIVATE KEY`, with the
    /// certificate's fingerprint, and the certificate text reads back as the
    /// DER it was written from.
    pub open spec fn encodes_der(&self, cert_der: Seq<u8>, key_der: Seq<u8>) -> bool {
        &&& self.cert_pem_text() == pem_encoded("CERTIFICATE"@, cert_der)
        &&& self.key_pem_text() == pem_encoded("PRIVATE KEY"@, key_der)
        &&& self.fingerprint_text() == fingerprint_of(cert_der)
        &&& pem_decoded(self.cert_pem_text()) == Some(cert_der)
    }

    /// Whether this material is a certificate made on `today`, following
    /// `certificate_plan(today)`, for an ECDSA P-256 key: the certificate
    /// carries the key's public key and is signed with it, and both are held as
    /// `encodes_der` says, so the key PEM is the key that signed.
    pub open spec fn made_on(&self, today: CalendarDate, cert_der: Seq<u8>, key_der: Seq<u8>) -> bool {
        &&& valid_date(today)
        &&& plan_in_range(today)
        &&& certificate_fields(cert_der) == planned_fields(today)
        &&& pkcs8_is_p256(key_der)
        &&& certificate_public_key(cert_der) == pkcs8_public_key(key_der)
        &&& signed_with(cert_der, pkcs8_public_key(key_der))
        &&& self.encodes_der(cert_der, key_der)
    }

    /// Whether this material is a certificate made on some day, as `made_on`
    /// says, with some key.
    pub open spec fn generated(&self) -> bool {
        exists|today: CalendarDate, cert_der: Seq<u8>, key_der: Seq<u8>|
            #[trigger] self.made_on(today, cert_der, key_der)
    }

    /// Material read back from the two PEM files a server saved earlier: the
    /// texts are kept as they are, and the fingerprint is taken from the
    /// certificate's binary contents. Fails when the certificate text is not a
    /// PEM document.
    pub fn from_pem(cert_pem: String, key_pem: String) -> (r: Result<CertificateMaterial, CertError>)
        ensures
            r is Ok <==> pem_decoded(cert_pem@) is Some,
            r matches Err(e) ==> e is Pem,
            r matches Ok(m) ==> m.loaded_from(cert_pem@, key_pem@),
            r matches Ok(m) ==> m.fingerprint_text().len() == 64,
    {
        match pem_contents(cert_pem.as_str()) {
            Ok(cert_der) => {
                let fingerprint_hex = fingerprint_sha256_hex(cert_der.as_slice());
                Ok(CertificateMaterial { cert_pem, key_pem, fingerprint_hex })
            },
            Err(e) => Err(CertError::Pem(e)),
        }
    }

    /// Material for a DER certificate and a DER (PKCS#8) private key: both
    /// written as PEM, under the tags `CERTIFICATE` and `PRIVATE KEY`, with the
    /// certificate's fingerprint, 64 lowercase hex digits.
    pub fn from_der(cert_der: &[u8], key_der: &[u8]) -> (m: CertificateMaterial)
        ensures
            m.encodes_der(cert_der@, key_der@),
            m.fingerprint_text().len() == 64,
    {
        proof {
            reveal_strlit("CERTIFICATE");
        }
        let cert_pem = pem_encode("CERTIFICATE", cert_der);
        let key_pem = pem_encode("PRIVATE KEY", key_der);
        let fingerprint_hex = fingerprint_sha256_hex(cert_der);
        CertificateMaterial { cert_pem, key_pem, fingerprint_hex }
    }

    /// A new self-signed certificate for the DNS name `localhost` and the
    /// addresses 127.0.0.1 and ::1, with common name `localhost`, valid from
    /// today (UTC) until `CERT_VALIDITY_DAYS` days later, carrying the public
    /// key of a fresh ECDSA P-256 key and signed with it; returned as PEM texts
    /// (the key as PKCS#8) with the certificate's fingerprint.
    ///
    /// The key, the clock and the signing are outside this library: key
    /// generation or signing fails as rcgen reports (`Rcgen`), a clock before
    /// 1970 gives `ClockOutOfRange`, and a day outside the years a certificate
    /// can carry gives `DateOutOfRange` as `certificate_plan` says.
    pub fn generate() -> (r: Result<CertificateMaterial, CertError>)
        ensures
            r matches Ok(m) ==> m.generated(),
            r matches Ok(m) ==> m.fingerprint_text().len() == 64,
            r matches Err(e) ==> !(e is Pem),
    {
        let key_der = match generate_p256_key() {
            Ok(der) => der,
            Err(e) => return Err(CertError::Rcgen(e)),
        };
        let today = match utc_today() {
            Some(d) => d,
            None => return Err(CertError::ClockOutOfRange),
        };
        let plan = match certificate_plan(&today) {
            Ok(p) => p,
            Err(e) => return Err(e),
        };
        let cert_der = match self_signed_certificate(&plan, key_der.as_slice()) {
            Ok(d) => d,
            Err(e) => return Err(CertError::Rcgen(e)),
        };
        let m = CertificateMaterial::from_der(cert_der.as_slice(), key_der.as_slice());
        assert(m.made_on(today, cert_der@, key_der@));
        Ok(m)
    }
}

/// Law: a server that restarts and loads the certificate it saved finds the
/// material it had: loading the saved texts succeeds (`from_pem` returns `Ok`
/// exactly when the certificate text decodes), and whatever `from_pem` loads
/// from them carries the same texts and the same fingerprint, so the
/// fingerprint browsers pinned stays valid. Material from `from_der` and
/// `generate` meets the requirement.
pub proof fn reload_keeps_fingerprint(m: CertificateMaterial, cert_der: Seq<u8>, key_der: Seq<u8>)
    requires
        m.encodes_der(cert_der, key_der),
    ensures
        pem_decoded(m.cert_pem_text()) is Some,
        forall|reloaded: CertificateMaterial|
            #[trigger] reloaded.loaded_from(m.cert_pem_text(), m.key_pem_text()) ==> {
                &&& reloaded.fingerprint_text() == m.fingerprint_text()
                &&& reloaded.cert_pem_text() == m.cert_pem_text()
                &&& reloaded.key_pem_text() == m.key_pem_text()
            },
{
}

} // verus!
