//! Bulk contact import: the payload is read as CSV records with a header,
//! normalised, deduplicated by email (the last record wins), validated as a
//! whole, and merged into the namespace's contacts.
use vstd::prelude::*;
use crate::consts::{CONTACT_NAME_MAX_LENGTH, EMAIL_MAX_LENGTH, MAX_IMPORT_CONTACTS_CSV_LENGTH};
use crate::entities::{Contact, ImportedContact, NewsletterList, NewsletterListContactRelation, User};
use crate::ids::{new_id, now_millis};
use crate::store::{Service, Tables};
use crate::errors::Error;
use crate::text::{lower_of, normalize_email, trim_of, trimmed};
use vstd::string::StringExecFns;

verus! {

/// The records, header first, that csv reads from the text; `None` where the
/// text is not well-formed CSV.
pub uninterp spec fn csv_records_of(text: Seq<char>) -> Option<Seq<Seq<Seq<char>>>>;

pub open spec fn rows_view(rows: Seq<Vec<String>>) -> Seq<Seq<Seq<char>>> {
    rows.map_values(|row: Vec<String>| row@.map_values(|f: String| f@))
}

/// Relies on csv's `ReaderBuilder::has_headers(false)` and `Reader::records`:
/// every record of the text, the header included, each field as written; a
/// read error (malformed text, records of unequal length) gives `None`.
#[verifier::external_body]
fn read_csv_records(text: &str) -> (r: Option<Vec<Vec<String>>>)
    ensures
        match r {
            Some(rows) => csv_records_of(text@) == Some(rows_view(rows@)),
            None => csv_records_of(text@) is None,
        },
{
    let mut reader = csv::ReaderBuilder::new().has_headers(false).from_reader(text.as_bytes());
    let mut rows = Vec::new();
    for record in reader.records() {
        match record {
            Ok(record) => rows.push(record.iter().map(|f| f.to_string()).collect()),
            Err(_) => return None,
        }
    }
    Some(rows)
}

/// A contact record as (name, email).
pub open spec fn record_of(c: ImportedContact) -> (Seq<char>, Seq<char>) {
    (c.name@, c.email@)
}

pub open spec fn records_of(v: Seq<ImportedContact>) -> Seq<(Seq<char>, Seq<char>)> {
    v.map_values(|c: ImportedContact| record_of(c))
}

pub open spec fn name_key() -> Seq<char> {
    seq!['n', 'a', 'm', 'e']
}

pub open spec fn email_key() -> Seq<char> {
    seq!['e', 'm', 'a', 'i', 'l']
}

/// The first column of the header with this title.
pub open spec fn column_of(header: Seq<Seq<char>>, key: Seq<char>) -> Option<int> {
    if exists|i: int| 0 <= i < header.len() && #[trigger] header[i] == key {
        Some(
            choose|i: int|
                0 <= i < header.len() && #[trigger] header[i] == key && forall|j: int|
                    0 <= j < i ==> #[trigger] header[j] != key,
        )
    } else {
        None
    }
}

/// The (name, email) records that CSV records stand for: the first record is
/// the header, whose "name" and "email" columns are read from every later record.
pub open spec fn contacts_of_rows(rows: Seq<Seq<Seq<char>>>) -> Option<
    Seq<(Seq<char>, Seq<char>)>,
> {
    if rows.len() <= 1 {
        Some(Seq::empty())
    } else {
        match (column_of(rows[0], name_key()), column_of(rows[0], email_key())) {
            (Some(n), Some(e)) => if forall|k: int|
                1 <= k < rows.len() ==> n < (#[trigger] rows[k]).len() && e < rows[k].len() {
                Some(Seq::new((rows.len() - 1) as nat, |k: int| (rows[k + 1][n], rows[k + 1][e])))
            } else {
                None
            },
            _ => None,
        }
    }
}

/// Name trimmed; email trimmed and in lower case.
pub open spec fn normalized(r: Seq<(Seq<char>, Seq<char>)>) -> Seq<(Seq<char>, Seq<char>)> {
    r.map_values(|c: (Seq<char>, Seq<char>)| (trim_of(c.0), lower_of(trim_of(c.1))))
}

/// Position of the first record with this email.
pub open spec fn email_position(r: Seq<(Seq<char>, Seq<char>)>, email: Seq<char>) -> Option<int> {
    if exists|i: int| 0 <= i < r.len() && #[trigger] r[i].1 == email {
        Some(
            choose|i: int|
                0 <= i < r.len() && #[trigger] r[i].1 == email && forall|j: int|
                    0 <= j < i ==> #[trigger] r[j].1 != email,
        )
    } else {
        None
    }
}

/// One record per email, in the order in which emails first occur, each
/// holding the last record of the input with that email.
pub open spec fn dedup(r: Seq<(Seq<char>, Seq<char>)>) -> Seq<(Seq<char>, Seq<char>)>
    decreases r.len(),
{
    if r.len() == 0 {
        r
    } else {
        let d = dedup(r.drop_last());
        match email_position(d, r.last().1) {
            Some(j) => d.update(j, r.last()),
            None => d.push(r.last()),
        }
    }
}

pub open spec fn has_email(c: (Seq<char>, Seq<char>)) -> bool {
    c.1.len() > 0
}

pub open spec fn valid_email(email: Seq<char>) -> bool {
    &&& email.len() <= EMAIL_MAX_LENGTH
    &&& exists|i: int| 0 < i < email.len() - 1 && #[trigger] email[i] == '@'
}

pub open spec fn valid_contact_name(name: Seq<char>) -> bool {
    name.len() <= CONTACT_NAME_MAX_LENGTH
}

/// The error of the first record that fails validation, its email checked
/// before its name.
pub open spec fn validation_error(r: Seq<(Seq<char>, Seq<char>)>) -> Option<Error>
    decreases r.len(),
{
    if r.len() == 0 {
        None
    } else {
        match validation_error(r.drop_last()) {
            Some(e) => Some(e),
            None => if !valid_email(r.last().1) {
                Some(Error::InvalidEmail)
            } else if !valid_contact_name(r.last().0) {
                Some(Error::InvalidContactName)
            } else {
                None
            },
        }
    }
}

/// The records that an import of this payload merges, or why it is refused.
pub open spec fn prepared(text: Seq<char>) -> Result<Seq<(Seq<char>, Seq<char>)>, Error> {
    match csv_records_of(text) {
        None => Err(Error::InvalidCsv),
        Some(rows) => match contacts_of_rows(rows) {
            None => Err(Error::InvalidCsv),
            Some(recs) => {
                let u = dedup(normalized(recs)).filter(|c: (Seq<char>, Seq<char>)| has_email(c));
                match validation_error(u) {
                    Some(e) => Err(e),
                    None => Ok(u),
                }
            },
        },
    }
}

/// Emails are pairwise distinct.
pub open spec fn distinct_emails(r: Seq<(Seq<char>, Seq<char>)>) -> bool {
    forall|i: int, j: int| 0 <= i < j < r.len() ==> #[trigger] r[i].1 != #[trigger] r[j].1
}

proof fn lemma_column_of(header: Seq<Seq<char>>, key: Seq<char>, i: int)
    requires
        0 <= i < header.len(),
        header[i] == key,
        forall|j: int| 0 <= j < i ==> #[trigger] header[j] != key,
    ensures
        column_of(header, key) == Some(i),
{
    let k = column_of(header, key)->Some_0;
    assert(header[k] == key);
    if k < i {
        assert(header[k] != key);
    } else if i < k {
        assert(header[i] != key);
    }
}

fn find_column(header: &Vec<String>, key: &String) -> (r: Option<usize>)
    ensures
        match r {
            Some(i) => column_of(header@.map_values(|f: String| f@), key@) == Some(i as int),
            None => column_of(header@.map_values(|f: String| f@), key@) is None,
        },
{
    let ghost h = header@.map_values(|f: String| f@);
    let mut i: usize = 0;
    while i < header.len()
        invariant
            h == header@.map_values(|f: String| f@),
            i <= header@.len(),
            forall|j: int| 0 <= j < i ==> #[trigger] h[j] != key@,
        decreases header@.len() - i,
    {
        if header[i] == *key {
            proof {
                lemma_column_of(h, key@, i as int);
            }
            return Some(i);
        }
        i = i + 1;
    }
    assert(!exists|j: int| 0 <= j < h.len() && #[trigger] h[j] == key@);
    None
}

proof fn lemma_rows_view(rows: Seq<Vec<String>>, k: int)
    requires
        0 <= k < rows.len(),
    ensures
        rows_view(rows).len() == rows.len(),
        rows_view(rows)[k].len() == rows[k]@.len(),
        forall|i: int| 0 <= i < rows[k]@.len() ==> #[trigger] rows_view(rows)[k][i] == rows[k]@[i]@,
{
}

/// The (name, email) records of CSV records whose first one is the header.
#[verifier::rlimit(60)]
fn contacts_from_rows(rows: &Vec<Vec<String>>) -> (r: Option<Vec<ImportedContact>>)
    ensures
        match r {
            Some(v) => contacts_of_rows(rows_view(rows@)) == Some(records_of(v@)),
            None => contacts_of_rows(rows_view(rows@)) is None,
        },
{
    let ghost rv = rows_view(rows@);
    let mut out: Vec<ImportedContact> = Vec::new();
    if rows.len() <= 1 {
        assert(records_of(out@) =~= Seq::empty());
        return Some(out);
    }
    let name_title = String::from_str("name");
    let email_title = String::from_str("email");
    proof {
        reveal_strlit("name");
        reveal_strlit("email");
        assert(name_title@ == name_key());
        assert(email_title@ == email_key());
        assert(rv[0] == rows@[0]@.map_values(|f: String| f@));
    }
    let n = match find_column(&rows[0], &name_title) {
        Some(n) => n,
        None => {
            return None;
        },
    };
    let e = match find_column(&rows[0], &email_title) {
        Some(e) => e,
        None => {
            return None;
        },
    };
    let mut k: usize = 1;
    while k < rows.len()
        invariant
            rv == rows_view(rows@),
            rows@.len() > 1,
            column_of(rv[0], name_key()) == Some(n as int),
            column_of(rv[0], email_key()) == Some(e as int),
            1 <= k <= rows@.len(),
            out@.len() == k - 1,
            forall|j: int|
                1 <= j < k ==> n < (#[trigger] rows@[j])@.len() && e < rows@[j]@.len(),
            forall|j: int|
                0 <= j < k - 1 ==> #[trigger] record_of(out@[j]) == (
                    rows@[j + 1]@[n as int]@,
                    rows@[j + 1]@[e as int]@,
                ),
        decreases rows@.len() - k,
    {
        let row = &rows[k];
        if n >= row.len() || e >= row.len() {
            proof {
                lemma_rows_view(rows@, k as int);
            }
            assert(!(n < rv[k as int].len() && e < rv[k as int].len()));
            return None;
        }
        let c = ImportedContact { name: row[n].clone(), email: row[e].clone() };
        out.push(c);
        k = k + 1;
    }
    assert forall|j: int| 1 <= j < rv.len() implies n < (#[trigger] rv[j]).len() && e < rv[j].len() by {
        lemma_rows_view(rows@, j);
    }
    assert forall|j: int| 0 <= j < rv.len() - 1 implies #[trigger] records_of(out@)[j] == (
        rv[j + 1][n as int],
        rv[j + 1][e as int],
    ) by {
        lemma_rows_view(rows@, j + 1);
        assert(record_of(out@[j]) == records_of(out@)[j]);
    }
    assert(records_of(out@) =~= Seq::new(
        (rv.len() - 1) as nat,
        |j: int| (rv[j + 1][n as int], rv[j + 1][e as int]),
    ));
    Some(out)
}

/// Trims every name; trims and lowers every email.
fn normalize_records(v: &Vec<ImportedContact>) -> (r: Vec<ImportedContact>)
    ensures
        records_of(r@) == normalized(records_of(v@)),
{
    let mut out: Vec<ImportedContact> = Vec::new();
    let mut i: usize = 0;
    while i < v.len()
        invariant
            i <= v@.len(),
            out@.len() == i,
            forall|j: int|
                0 <= j < i ==> #[trigger] record_of(out@[j]) == (
                    trim_of(v@[j].name@),
                    lower_of(trim_of(v@[j].email@)),
                ),
        decreases v@.len() - i,
    {
        let name = trimmed(v[i].name.as_str());
        let email = normalize_email(v[i].email.as_str());
        out.push(ImportedContact { name, email });
        i = i + 1;
    }
    assert(records_of(out@) =~= normalized(records_of(v@)));
    out
}

proof fn lemma_email_position(r: Seq<(Seq<char>, Seq<char>)>, email: Seq<char>, i: int)
    requires
        0 <= i < r.len(),
        r[i].1 == email,
        forall|j: int| 0 <= j < i ==> #[trigger] r[j].1 != email,
    ensures
        email_position(r, email) == Some(i),
{
    let k = email_position(r, email)->Some_0;
    assert(r[k].1 == email);
    if k < i {
        assert(r[k].1 != email);
    } else if i < k {
        assert(r[i].1 != email);
    }
}

fn find_email(v: &Vec<ImportedContact>, email: &String) -> (r: Option<usize>)
    ensures
        match r {
            Some(i) => i < v@.len() && email_position(records_of(v@), email@) == Some(i as int),
            None => email_position(records_of(v@), email@) is None,
        },
{
    let ghost rv = records_of(v@);
    let mut i: usize = 0;
    while i < v.len()
        invariant
            rv == records_of(v@),
            i <= v@.len(),
            forall|j: int| 0 <= j < i ==> #[trigger] rv[j].1 != email@,
        decreases v@.len() - i,
    {
        if v[i].email == *email {
            proof {
                lemma_email_position(rv, email@, i as int);
            }
            return Some(i);
        }
        i = i + 1;
    }
    assert(!exists|j: int| 0 <= j < rv.len() && #[trigger] rv[j].1 == email@);
    None
}

/// One record per email, the last one of the input winning, in the order in
/// which the emails first occur.
pub fn dedup_records(v: &Vec<ImportedContact>) -> (r: Vec<ImportedContact>)
    ensures
        records_of(r@) == dedup(records_of(v@)),
{
    let ghost rv = records_of(v@);
    let mut out: Vec<ImportedContact> = Vec::new();
    let mut i: usize = 0;
    assert(rv.subrange(0, 0) =~= Seq::empty());
    while i < v.len()
        invariant
            rv == records_of(v@),
            i <= v@.len(),
            records_of(out@) == dedup(rv.subrange(0, i as int)),
        decreases v@.len() - i,
    {
        let c = v[i].duplicate();
        assert(rv.subrange(0, i as int + 1).drop_last() == rv.subrange(0, i as int));
        assert(rv.subrange(0, i as int + 1).last() == record_of(c));
        let ghost before = out@;
        match find_email(&out, &c.email) {
            Some(j) => {
                out.set(j, c);
                assert(records_of(out@) =~= records_of(before).update(j as int, rv[i as int]));
            },
            None => {
                out.push(c);
                assert(records_of(out@) =~= records_of(before).push(rv[i as int]));
            },
        }
        i = i + 1;
    }
    assert(rv.subrange(0, i as int) == rv);
    out
}

/// Leaves out the records whose email is empty.
fn drop_missing_emails(v: &Vec<ImportedContact>) -> (r: Vec<ImportedContact>)
    ensures
        records_of(r@) == records_of(v@).filter(|c: (Seq<char>, Seq<char>)| has_email(c)),
{
    let ghost rv = records_of(v@);
    let mut out: Vec<ImportedContact> = Vec::new();
    let mut i: usize = 0;
    while i < v.len()
        invariant
            rv == records_of(v@),
            i <= v@.len(),
            records_of(out@) == rv.subrange(0, i as int).filter(
                |c: (Seq<char>, Seq<char>)| has_email(c),
            ),
        decreases v@.len() - i,
    {
        assert(rv.subrange(0, i as int + 1).drop_last() == rv.subrange(0, i as int));
        assert(rv.subrange(0, i as int + 1).last() == rv[i as int]);
        proof {
            reveal_with_fuel(Seq::filter, 1);
        }
        let ghost before = out@;
        if !v[i].email.as_str().is_empty() {
            out.push(v[i].duplicate());
            assert(records_of(out@) =~= records_of(before).push(rv[i as int]));
        }
        i = i + 1;
    }
    assert(rv.subrange(0, i as int) == rv);
    out
}

pub fn validate_email(email: &str) -> (r: bool)
    ensures
        r == valid_email(email@),
{
    let n = email.unicode_len();
    if n > EMAIL_MAX_LENGTH || n < 3 {
        return false;
    }
    let mut i: usize = 1;
    while i < n - 1
        invariant
            n == email@.len(),
            3 <= n <= EMAIL_MAX_LENGTH,
            1 <= i <= n - 1,
            forall|j: int| 0 < j < i ==> #[trigger] email@[j] != '@',
        decreases n - 1 - i,
    {
        if email.get_char(i) == '@' {
            assert(email@[i as int] == '@');
            return true;
        }
        i = i + 1;
    }
    false
}

pub fn validate_contact_name(name: &str) -> (r: bool)
    ensures
        r == valid_contact_name(name@),
{
    name.unicode_len() <= CONTACT_NAME_MAX_LENGTH
}

fn validate_records(v: &Vec<ImportedContact>) -> (r: Result<(), Error>)
    ensures
        match validation_error(records_of(v@)) {
            Some(e) => r == Err::<(), Error>(e),
            None => r is Ok,
        },
{
    let ghost rv = records_of(v@);
    let mut i: usize = 0;
    assert(rv.subrange(0, 0) =~= Seq::empty());
    while i < v.len()
        invariant
            rv == records_of(v@),
            i <= v@.len(),
            validation_error(rv.subrange(0, i as int)) is None,
        decreases v@.len() - i,
    {
        assert(rv.subrange(0, i as int + 1).drop_last() == rv.subrange(0, i as int));
        assert(rv.subrange(0, i as int + 1).last() == rv[i as int]);
        if !validate_email(v[i].email.as_str()) {
            proof {
                lemma_validation_error_prefix(rv, i as int + 1);
            }
            return Err(Error::InvalidEmail);
        }
        if !validate_contact_name(v[i].name.as_str()) {
            proof {
                lemma_validation_error_prefix(rv, i as int + 1);
            }
            return Err(Error::InvalidContactName);
        }
        i = i + 1;
    }
    assert(rv.subrange(0, i as int) == rv);
    Ok(())
}

/// Once a prefix fails validation, the whole sequence fails with its error.
proof fn lemma_validation_error_prefix(r: Seq<(Seq<char>, Seq<char>)>, k: int)
    requires
        0 <= k <= r.len(),
        validation_error(r.subrange(0, k)) is Some,
    ensures
        validation_error(r) == validation_error(r.subrange(0, k)),
    decreases r.len() - k,
{
    if k < r.len() {
        assert(r.subrange(0, k + 1).drop_last() == r.subrange(0, k));
        lemma_validation_error_prefix(r, k + 1);
    } else {
        assert(r.subrange(0, k) == r);
    }
}

/// The records that an import of `text` merges: read as CSV, normalised,
/// deduplicated by email, without empty emails, and validated.
pub fn prepare_import(text: &str) -> (r: Result<Vec<ImportedContact>, Error>)
    ensures
        match prepared(text@) {
            Ok(recs) => r matches Ok(v) && records_of(v@) == recs,
            Err(e) => r == Err::<Vec<ImportedContact>, Error>(e),
        },
{
    let rows = match read_csv_records(text) {
        Some(rows) => rows,
        None => {
            return Err(Error::InvalidCsv);
        },
    };
    let parsed = match contacts_from_rows(&rows) {
        Some(parsed) => parsed,
        None => {
            return Err(Error::InvalidCsv);
        },
    };
    let cleaned = normalize_records(&parsed);
    let unique = dedup_records(&cleaned);
    let kept = drop_missing_emails(&unique);
    validate_records(&kept)?;
    Ok(kept)
}

/// Position of the first contact of namespace `ns` with this email.
pub open spec fn contact_position(cs: Seq<Contact>, ns: u128, email: Seq<char>) -> Option<int> {
    if exists|i: int|
        0 <= i < cs.len() && (#[trigger] cs[i]).namespace_id == ns && cs[i].email@ == email {
        Some(
            choose|i: int|
                0 <= i < cs.len() && (#[trigger] cs[i]).namespace_id == ns && cs[i].email@ == email
                    && forall|j: int|
                    0 <= j < i ==> !((#[trigger] cs[j]).namespace_id == ns && cs[j].email@ == email),
        )
    } else {
        None
    }
}

/// How many of the first `k` records have no contact yet.
pub open spec fn new_before(
    cs: Seq<Contact>,
    ns: u128,
    recs: Seq<(Seq<char>, Seq<char>)>,
    k: int,
) -> nat
    decreases k,
{
    if k <= 0 {
        0
    } else if contact_position(cs, ns, recs[k - 1].1) is None {
        new_before(cs, ns, recs, k - 1) + 1
    } else {
        new_before(cs, ns, recs, k - 1)
    }
}

/// `c` is `existing` after merging record `rec` at `now`: the name changes
/// only to a non-empty different one.
pub open spec fn merged(existing: Contact, c: Contact, rec: (Seq<char>, Seq<char>), now: i64) -> bool {
    if rec.0.len() > 0 && rec.0 != existing.name@ {
        &&& c.name@ == rec.0
        &&& c == Contact { name: c.name, updated_at: now, ..existing }
    } else {
        c == existing
    }
}

/// `c` is the contact created for record `rec`.
pub open spec fn created(c: Contact, rec: (Seq<char>, Seq<char>), ns: u128, now: i64, id: u128) -> bool {
    &&& c.id == id
    &&& c.created_at == now
    &&& c.updated_at == now
    &&& c.name@ == rec.0
    &&& c.email@ == rec.1
    &&& c.phone@.len() == 0
    &&& c.address@.len() == 0
    &&& c.website@.len() == 0
    &&& c.notes@.len() == 0
    &&& c.namespace_id == ns
}

/// The relations `rels` with one from list `list_id` to each contact of
/// `ids` added, where it is not there yet.
pub open spec fn with_relations(
    rels: Seq<NewsletterListContactRelation>,
    list_id: u128,
    ids: Seq<u128>,
) -> Seq<NewsletterListContactRelation>
    decreases ids.len(),
{
    if ids.len() == 0 {
        rels
    } else {
        let r = with_relations(rels, list_id, ids.drop_last());
        let x = NewsletterListContactRelation { list_id: list_id, contact_id: ids.last() };
        if r.contains(x) {
            r
        } else {
            r.push(x)
        }
    }
}

pub open spec fn ids_of(cs: Seq<Contact>) -> Seq<u128> {
    cs.map_values(|c: Contact| c.id)
}

/// Merging records `recs` (distinct emails) into namespace `ns` at `now`
/// turns `s0` into `s1` and resolves record k to `out[k]`: an existing contact
/// with its email, merged, or a new one with identifier `ids[k]`, added after
/// the existing ones in record order. With a list, each resolved contact is
/// related to it.
pub open spec fn contacts_merged(
    c0: Seq<Contact>,
    c1: Seq<Contact>,
    ns: u128,
    recs: Seq<(Seq<char>, Seq<char>)>,
    now: i64,
    ids: Seq<u128>,
    out: Seq<Contact>,
) -> bool {
    &&& out.len() == recs.len()
    &&& c1.len() == c0.len() + new_before(c0, ns, recs, recs.len() as int)
    &&& forall|k: int|
        0 <= k < recs.len() ==> match contact_position(c0, ns, (#[trigger] recs[k]).1) {
            Some(i) => merged(c0[i], out[k], recs[k], now) && c1[i] == out[k],
            None => created(out[k], recs[k], ns, now, ids[k]) && c1[(c0.len() + new_before(
                c0,
                ns,
                recs,
                k,
            )) as int] == out[k],
        }
    &&& forall|i: int|
        0 <= i < c0.len() && (forall|k: int|
            0 <= k < recs.len() ==> contact_position(c0, ns, (#[trigger] recs[k]).1) != Some(i))
            ==> #[trigger] c1[i] == c0[i]
}

pub open spec fn relations_after(
    rels: Seq<NewsletterListContactRelation>,
    list_id: Option<u128>,
    out: Seq<Contact>,
) -> Seq<NewsletterListContactRelation> {
    match list_id {
        Some(l) => with_relations(rels, l, ids_of(out)),
        None => rels,
    }
}

/// Merging records `recs` (distinct emails) into namespace `ns` at `now`
/// turns `s0` into `s1` and resolves record k to `out[k]`: an existing contact
/// with its email, merged, or a new one with identifier `ids[k]`, added after
/// the existing ones in record order. With a list, each resolved contact is
/// related to it.
pub open spec fn merge_post(
    s0: Tables,
    s1: Tables,
    ns: u128,
    list_id: Option<u128>,
    recs: Seq<(Seq<char>, Seq<char>)>,
    now: i64,
    ids: Seq<u128>,
    out: Seq<Contact>,
) -> bool {
    &&& contacts_merged(s0.contacts, s1.contacts, ns, recs, now, ids, out)
    &&& s1 == Tables {
        contacts: s1.contacts,
        list_contacts: relations_after(s0.list_contacts, list_id, out),
        ..s0
    }
}

proof fn lemma_contact_position(cs: Seq<Contact>, ns: u128, email: Seq<char>, i: int)
    requires
        0 <= i < cs.len(),
        cs[i].namespace_id == ns && cs[i].email@ == email,
        forall|j: int| 0 <= j < i ==> !((#[trigger] cs[j]).namespace_id == ns && cs[j].email@ == email),
    ensures
        contact_position(cs, ns, email) == Some(i),
{
    let k = contact_position(cs, ns, email)->Some_0;
    assert(cs[k].namespace_id == ns && cs[k].email@ == email);
    if k < i {
        assert(!(cs[k].namespace_id == ns && cs[k].email@ == email));
    } else if i < k {
        assert(!(cs[i].namespace_id == ns && cs[i].email@ == email));
    }
}

/// First of the first `limit` contacts that belongs to `ns` and has this email.
fn find_contact(cs: &Vec<Contact>, limit: usize, ns: u128, email: &String) -> (r: Option<usize>)
    requires
        limit <= cs@.len(),
    ensures
        match r {
            Some(i) => i < limit && cs@[i as int].namespace_id == ns && cs@[i as int].email@
                == email@ && forall|j: int|
                0 <= j < i ==> !((#[trigger] cs@[j]).namespace_id == ns && cs@[j].email@ == email@),
            None => forall|j: int|
                0 <= j < limit ==> !((#[trigger] cs@[j]).namespace_id == ns && cs@[j].email@
                    == email@),
        },
{
    let mut i: usize = 0;
    while i < limit
        invariant
            limit <= cs@.len(),
            i <= limit,
            forall|j: int|
                0 <= j < i ==> !((#[trigger] cs@[j]).namespace_id == ns && cs@[j].email@ == email@),
        decreases limit - i,
    {
        if cs[i].namespace_id == ns && cs[i].email == *email {
            return Some(i);
        }
        i = i + 1;
    }
    None
}

fn add_relation(rels: &mut Vec<NewsletterListContactRelation>, list_id: u128, contact_id: u128)
    ensures
        ({
            let x = NewsletterListContactRelation { list_id: list_id, contact_id: contact_id };
            final(rels)@ == if old(rels)@.contains(x) {
                old(rels)@
            } else {
                old(rels)@.push(x)
            }
        }),
{
    let ghost x = NewsletterListContactRelation { list_id: list_id, contact_id: contact_id };
    let mut i: usize = 0;
    while i < rels.len()
        invariant
            x == (NewsletterListContactRelation { list_id: list_id, contact_id: contact_id }),
            i <= rels@.len(),
            forall|j: int| 0 <= j < i ==> #[trigger] rels@[j] != x,
        decreases rels@.len() - i,
    {
        let r = rels[i];
        if r.list_id == list_id && r.contact_id == contact_id {
            assert(r == x);
            return;
        }
        i = i + 1;
    }
    rels.push(NewsletterListContactRelation { list_id, contact_id });
}

#[verifier::rlimit(100)]
fn merge_into(
    contacts: &mut Vec<Contact>,
    rels: &mut Vec<NewsletterListContactRelation>,
    ns: u128,
    list_id: Option<u128>,
    recs: &Vec<ImportedContact>,
    now: i64,
    ids: &Vec<u128>,
) -> (r: Vec<Contact>)
    requires
        distinct_emails(records_of(recs@)),
        ids@.len() >= recs@.len(),
    ensures
        contacts_merged(old(contacts)@, final(contacts)@, ns, records_of(recs@), now, ids@, r@),
        final(rels)@ == relations_after(old(rels)@, list_id, r@),
    {
        let ghost c0 = contacts@;
        let ghost l0 = rels@;
        let ghost rv = records_of(recs@);
        let limit = contacts.len();
        let mut out: Vec<Contact> = Vec::new();
        let mut k: usize = 0;
        while k < recs.len()
            invariant
                rv == records_of(recs@),
                distinct_emails(rv),
                ids@.len() >= rv.len(),
                limit == c0.len(),
                k <= rv.len(),
                out@.len() == k,
                contacts@.len() == c0.len() + new_before(c0, ns, rv, k as int),
                forall|i: int|
                    0 <= i < c0.len() ==> (#[trigger] contacts@[i]).namespace_id
                        == c0[i].namespace_id && contacts@[i].email@ == c0[i].email@,
                forall|j: int|
                    0 <= j < k ==> match contact_position(c0, ns, (#[trigger] rv[j]).1) {
                        Some(i) => 0 <= i < c0.len() && c0[i].email@ == rv[j].1 && merged(
                            c0[i],
                            out@[j],
                            rv[j],
                            now,
                        ) && contacts@[i] == out@[j],
                        None => created(out@[j], rv[j], ns, now, ids@[j])
                            && contacts@[(c0.len() + new_before(c0, ns, rv, j)) as int]
                            == out@[j],
                    },
                forall|i: int|
                    0 <= i < c0.len() && (forall|j: int|
                        0 <= j < k ==> contact_position(c0, ns, (#[trigger] rv[j]).1) != Some(i))
                        ==> #[trigger] contacts@[i] == c0[i],
                rels@ == relations_after(l0, list_id, out@),
            decreases rv.len() - k,
        {
            let ghost before = contacts@;
            let ghost out_before = out@;
            let rec = &recs[k];
            assert(rv[k as int] == record_of(recs@[k as int]));
            let contact = match find_contact(&contacts, limit, ns, &rec.email) {
                Some(i) => {
                    proof {
                        assert forall|j: int|
                            0 <= j < i implies !((#[trigger] c0[j]).namespace_id == ns && c0[j].email@
                            == rv[k as int].1) by {
                            assert(contacts@[j].namespace_id == c0[j].namespace_id);
                        }
                        lemma_contact_position(c0, ns, rv[k as int].1, i as int);
                        assert forall|j: int|
                            0 <= j < k implies contact_position(c0, ns, (#[trigger] rv[j]).1) != Some(
                                i as int,
                            ) by {
                            if contact_position(c0, ns, rv[j].1) == Some(i as int) {
                                assert(rv[j].1 != rv[k as int].1);
                            }
                        }
                        assert(contacts@[i as int] == c0[i as int]);
                    }
                    let mut c = contacts[i].duplicate();
                    if !rec.name.as_str().is_empty() && rec.name != c.name {
                        c.name = rec.name.clone();
                        c.updated_at = now;
                        contacts.set(i, c.duplicate());
                    }
                    c
                },
                None => {
                    proof {
                        assert forall|j: int|
                            0 <= j < c0.len() implies !((#[trigger] c0[j]).namespace_id == ns
                            && c0[j].email@ == rv[k as int].1) by {
                            assert(contacts@[j].namespace_id == c0[j].namespace_id);
                        }
                    }
                    let c = Contact {
                        id: ids[k],
                        created_at: now,
                        updated_at: now,
                        name: rec.name.clone(),
                        email: rec.email.clone(),
                        phone: String::new(),
                        address: String::new(),
                        website: String::new(),
                        notes: String::new(),
                        namespace_id: ns,
                    };
                    contacts.push(c.duplicate());
                    c
                },
            };
            if let Some(l) = list_id {
                add_relation(rels, l, contact.id);
            }
            out.push(contact);
            proof {
                assert(ids_of(out@).drop_last() == ids_of(out_before));
                assert forall|j: int|
                    0 <= j < k implies match contact_position(c0, ns, (#[trigger] rv[j]).1) {
                        Some(i) => contacts@[i] == out@[j],
                        None => contacts@[(c0.len() + new_before(c0, ns, rv, j)) as int]
                            == out@[j],
                    } by {
                    assert(out@[j] == out_before[j]);
                    lemma_new_before_mono(c0, ns, rv, j, k as int);
                    match contact_position(c0, ns, rv[j].1) {
                        Some(i) => {
                            assert(before[i] == out_before[j]);
                            if contact_position(c0, ns, rv[k as int].1) == Some(i) {
                                assert(rv[j].1 != rv[k as int].1);
                            }
                        },
                        None => {},
                    }
                }
            }
            k = k + 1;
        }
        out
}

impl Service {
    /// Merges records with distinct emails into namespace `ns` at `now`, new
    /// contacts taking their identifier from `ids` by record position, and
    /// relates each resolved contact to the list, if one is given.
    pub fn merge_contacts(
        &mut self,
        ns: u128,
        list_id: Option<u128>,
        recs: &Vec<ImportedContact>,
        now: i64,
        ids: &Vec<u128>,
    ) -> (r: Vec<Contact>)
        requires
            distinct_emails(records_of(recs@)),
            ids@.len() >= recs@.len(),
            old(self).db.wf(),
        ensures
            final(self).db.wf(),
            merge_post(old(self).db@, final(self).db@, ns, list_id, records_of(recs@), now, ids@, r@),
    {
        let ghost s0 = self.db@;
        let out = merge_into(
            &mut self.db.contacts,
            &mut self.db.list_contacts,
            ns,
            list_id,
            recs,
            now,
            ids,
        );
        assert(self.db@.pending_users == s0.pending_users);
        assert(self.db@.namespaces == s0.namespaces);
        out
    }
}

proof fn lemma_new_before_mono(
    cs: Seq<Contact>,
    ns: u128,
    recs: Seq<(Seq<char>, Seq<char>)>,
    j: int,
    k: int,
)
    requires
        0 <= j < k,
    ensures
        contact_position(cs, ns, recs[j].1) is None ==> new_before(cs, ns, recs, j) < new_before(
            cs,
            ns,
            recs,
            k,
        ),
        new_before(cs, ns, recs, j) <= new_before(cs, ns, recs, k),
    decreases k - j,
{
    if j + 1 < k {
        lemma_new_before_mono(cs, ns, recs, j + 1, k);
    }
}

proof fn lemma_first_email(r: Seq<(Seq<char>, Seq<char>)>, email: Seq<char>, i: int)
    requires
        0 <= i < r.len(),
        r[i].1 == email,
    ensures
        email_position(r, email) is Some,
        0 <= email_position(r, email)->Some_0 < r.len(),
        r[email_position(r, email)->Some_0].1 == email,
    decreases i,
{
    if exists|j: int| 0 <= j < i && #[trigger] r[j].1 == email {
        let j = choose|j: int| 0 <= j < i && #[trigger] r[j].1 == email;
        lemma_first_email(r, email, j);
    } else {
        lemma_email_position(r, email, i);
    }
}

/// Deduplication leaves one record per email.
pub proof fn lemma_dedup_distinct(r: Seq<(Seq<char>, Seq<char>)>)
    ensures
        distinct_emails(dedup(r)),
    decreases r.len(),
{
    if r.len() > 0 {
        let d = dedup(r.drop_last());
        lemma_dedup_distinct(r.drop_last());
        let x = r.last();
        match email_position(d, x.1) {
            Some(j) => {
                let i0 = choose|i: int| 0 <= i < d.len() && #[trigger] d[i].1 == x.1;
                lemma_first_email(d, x.1, i0);
                let u = d.update(j, x);
                assert forall|a: int, b: int| 0 <= a < b < u.len() implies #[trigger] u[a].1
                    != #[trigger] u[b].1 by {
                    assert(u[a].1 == d[a].1 && u[b].1 == d[b].1);
                }
            },
            None => {
                let u = d.push(x);
                assert forall|a: int, b: int| 0 <= a < b < u.len() implies #[trigger] u[a].1
                    != #[trigger] u[b].1 by {
                    if b == d.len() {
                        assert(!(d[a].1 == x.1));
                    }
                }
            },
        }
    }
}

/// The last record with a given email is the one deduplication keeps.
pub proof fn lemma_dedup_last_wins(r: Seq<(Seq<char>, Seq<char>)>, k: int)
    requires
        0 <= k < r.len(),
        forall|j: int| k < j < r.len() ==> #[trigger] r[j].1 != r[k].1,
    ensures
        dedup(r).contains(r[k]),
    decreases r.len(),
{
    let d = dedup(r.drop_last());
    let x = r.last();
    if k == r.len() - 1 {
        match email_position(d, x.1) {
            Some(j) => {
                let i0 = choose|i: int| 0 <= i < d.len() && #[trigger] d[i].1 == x.1;
                lemma_first_email(d, x.1, i0);
                assert(d.update(j, x)[j] == x);
            },
            None => {
                assert(d.push(x)[d.len() as int] == x);
            },
        }
    } else {
        lemma_dedup_last_wins(r.drop_last(), k);
        let j = choose|j: int| 0 <= j < d.len() && d[j] == r[k];
        match email_position(d, x.1) {
            Some(p) => {
                let i0 = choose|i: int| 0 <= i < d.len() && #[trigger] d[i].1 == x.1;
                lemma_first_email(d, x.1, i0);
                assert(r[r.len() - 1].1 != r[k].1);
                assert(d.update(p, x)[j] == r[k]);
            },
            None => {
                assert(d.push(x)[j] == r[k]);
            },
        }
    }
}

proof fn lemma_filter_distinct_emails(r: Seq<(Seq<char>, Seq<char>)>)
    requires
        distinct_emails(r),
    ensures
        distinct_emails(r.filter(|c: (Seq<char>, Seq<char>)| has_email(c))),
    decreases r.len(),
{
    if r.len() > 0 {
        let p = |c: (Seq<char>, Seq<char>)| has_email(c);
        let d = r.drop_last();
        assert(distinct_emails(d)) by {
            assert forall|a: int, b: int| 0 <= a < b < d.len() implies #[trigger] d[a].1
                != #[trigger] d[b].1 by {
                assert(d[a] == r[a] && d[b] == r[b]);
            }
        }
        lemma_filter_distinct_emails(d);
        let fd = d.filter(p);
        let f = r.filter(p);
        reveal_with_fuel(Seq::filter, 1);
        assert(d.filter(p) == fd);
        assert forall|a: int, b: int| 0 <= a < b < f.len() implies #[trigger] f[a].1
            != #[trigger] f[b].1 by {
            if b == fd.len() {
                assert(fd.contains(fd[a]));
                d.lemma_filter_contains_rev(p, fd[a]);
                let k = choose|k: int| 0 <= k < d.len() && d[k] == fd[a];
                assert(r[k] == d[k]);
                assert(f[b] == r[r.len() - 1]);
            } else {
                assert(f[a] == fd[a] && f[b] == fd[b]);
            }
        }
    }
}

/// The records that an import merges carry pairwise distinct emails.
pub proof fn lemma_prepared_distinct(text: Seq<char>)
    ensures
        prepared(text) is Ok ==> distinct_emails(prepared(text)->Ok_0),
{
    if let Some(rows) = csv_records_of(text) {
        if let Some(recs) = contacts_of_rows(rows) {
            lemma_dedup_distinct(normalized(recs));
            lemma_filter_distinct_emails(dedup(normalized(recs)));
        }
    }
}

pub struct ImportContactsInput {
    pub namespace_id: u128,
    pub list_id: Option<u128>,
    pub contacts_csv: String,
}

/// The user may act in namespace `ns`: it is their own, or that of a group
/// they belong to.
pub open spec fn is_namespace_member(t: Tables, user: User, ns: u128) -> bool {
    user.namespace_id == ns || exists|g: int, m: int|
        0 <= g < t.groups.len() && 0 <= m < t.memberships.len() && (#[trigger] t.groups[g]).namespace_id
            == ns && (#[trigger] t.memberships[m]).group_id == t.groups[g].id
            && t.memberships[m].user_id == user.id
}

/// Position of the first newsletter list with this identifier.
pub open spec fn list_index(t: Tables, id: u128) -> Option<int> {
    if exists|i: int| 0 <= i < t.lists.len() && #[trigger] t.lists[i].id == id {
        Some(
            choose|i: int|
                0 <= i < t.lists.len() && #[trigger] t.lists[i].id == id && forall|j: int|
                    0 <= j < i ==> #[trigger] t.lists[j].id != id,
        )
    } else {
        None
    }
}

/// Size of a payload in bytes.
pub open spec fn byte_len(text: Seq<char>) -> nat {
    vstd::utf8::encode_utf8(text).len()
}

/// Why an import of `text` into namespace `ns`, with an optional target list,
/// is refused before any write, if it is.
pub open spec fn import_refusal(
    t: Tables,
    actor: Option<User>,
    ns: u128,
    list_id: Option<u128>,
    text: Seq<char>,
) -> Option<Error> {
    if actor is None {
        Some(Error::AuthenticationRequired)
    } else if !is_namespace_member(t, actor->Some_0, ns) {
        Some(Error::PermissionDenied)
    } else if list_id is Some && list_index(t, list_id->Some_0) is None {
        Some(Error::NewsletterListNotFound)
    } else if list_id is Some && t.lists[list_index(t, list_id->Some_0)->Some_0].namespace_id
        != ns {
        Some(Error::PermissionDenied)
    } else if byte_len(text) > MAX_IMPORT_CONTACTS_CSV_LENGTH {
        Some(Error::ContactsCsvTooLarge)
    } else {
        match prepared(text) {
            Err(e) => Some(e),
            Ok(_) => None,
        }
    }
}

/// What an import does to the tables `s0`, giving `s1` and `r`: refused with
/// nothing written, or the prepared records merged at some time `now` with
/// some fresh identifiers.
pub open spec fn import_post(
    s0: Tables,
    s1: Tables,
    actor: Option<User>,
    ns: u128,
    list_id: Option<u128>,
    text: Seq<char>,
    r: Result<Vec<Contact>, Error>,
) -> bool {
    match import_refusal(s0, actor, ns, list_id, text) {
        Some(e) => r == Err::<Vec<Contact>, Error>(e) && s1 == s0,
        None => r matches Ok(out) && exists|now: i64, ids: Seq<u128>|
            ids.len() >= prepared(text)->Ok_0.len() && #[trigger] merge_post(
                s0,
                s1,
                ns,
                list_id,
                prepared(text)->Ok_0,
                now,
                ids,
                out@,
            ),
    }
}

fn find_list(lists: &Vec<NewsletterList>, id: u128) -> (r: Option<usize>)
    ensures
        match r {
            Some(i) => i < lists@.len() && lists@[i as int].id == id && forall|j: int|
                0 <= j < i ==> #[trigger] lists@[j].id != id,
            None => forall|j: int| 0 <= j < lists@.len() ==> #[trigger] lists@[j].id != id,
        },
{
    let mut i: usize = 0;
    while i < lists.len()
        invariant
            i <= lists@.len(),
            forall|j: int| 0 <= j < i ==> #[trigger] lists@[j].id != id,
        decreases lists@.len() - i,
    {
        if lists[i].id == id {
            return Some(i);
        }
        i = i + 1;
    }
    None
}

proof fn lemma_list_index(t: Tables, id: u128, i: int)
    requires
        0 <= i < t.lists.len(),
        t.lists[i].id == id,
        forall|j: int| 0 <= j < i ==> #[trigger] t.lists[j].id != id,
    ensures
        list_index(t, id) == Some(i),
{
    let k = list_index(t, id)->Some_0;
    assert(t.lists[k].id == id);
    if k < i {
        assert(t.lists[k].id != id);
    } else if i < k {
        assert(t.lists[i].id != id);
    }
}

impl Service {
    /// Whether the user may act in namespace `ns`.
    pub fn check_namespace_membership(&self, user: &User, ns: u128) -> (r: bool)
        ensures
            r == is_namespace_member(self.db@, *user, ns),
    {
        if user.namespace_id == ns {
            return true;
        }
        let mut g: usize = 0;
        while g < self.db.groups.len()
            invariant
                g <= self.db@.groups.len(),
                forall|a: int, m: int|
                    0 <= a < g && 0 <= m < self.db@.memberships.len() ==> !((
                    #[trigger] self.db@.groups[a]).namespace_id == ns && (
                    #[trigger] self.db@.memberships[m]).group_id == self.db@.groups[a].id
                        && self.db@.memberships[m].user_id == user.id),
            decreases self.db@.groups.len() - g,
        {
            if self.db.groups[g].namespace_id == ns {
                let gid = self.db.groups[g].id;
                let mut m: usize = 0;
                while m < self.db.memberships.len()
                    invariant
                        g < self.db@.groups.len(),
                        gid == self.db@.groups[g as int].id,
                        self.db@.groups[g as int].namespace_id == ns,
                        m <= self.db@.memberships.len(),
                        forall|k: int|
                            0 <= k < m ==> !((#[trigger] self.db@.memberships[k]).group_id == gid
                                && self.db@.memberships[k].user_id == user.id),
                    decreases self.db@.memberships.len() - m,
                {
                    let mm = self.db.memberships[m];
                    if mm.group_id == gid && mm.user_id == user.id {
                        assert(self.db@.groups[g as int].namespace_id == ns
                            && self.db@.memberships[m as int].group_id == self.db@.groups[g as int].id
                            && self.db@.memberships[m as int].user_id == user.id);
                        return true;
                    }
                    m = m + 1;
                }
            }
            g = g + 1;
        }
        false
    }

    /// Merges the prepared records `recs` of an import that `import_refusal`
    /// does not refuse, at `now`, new contacts taking their identifiers from `ids`.
    pub fn import_contacts_with(
        &mut self,
        user: &User,
        input: &ImportContactsInput,
        now: i64,
        ids: &Vec<u128>,
        recs: &Vec<ImportedContact>,
    ) -> (r: Vec<Contact>)
        requires
            old(self).db.wf(),
            import_refusal(
                old(self).db@,
                Some(*user),
                input.namespace_id,
                input.list_id,
                input.contacts_csv@,
            ) is None,
            records_of(recs@) == prepared(input.contacts_csv@)->Ok_0,
            ids@.len() >= recs@.len(),
        ensures
            final(self).db.wf(),
            merge_post(
                old(self).db@,
                final(self).db@,
                input.namespace_id,
                input.list_id,
                records_of(recs@),
                now,
                ids@,
                r@,
            ),
    {
        proof {
            lemma_prepared_distinct(input.contacts_csv@);
        }
        self.merge_contacts(input.namespace_id, input.list_id, recs, now, ids)
    }

    /// Imports contacts now: the caller must belong to the namespace, a target
    /// list must exist there, the payload must fit the size bound and parse and
    /// validate as a whole; then every record is merged in one step.
    #[verifier::rlimit(100)]
    pub fn import_contacts(&mut self, actor: Option<User>, input: ImportContactsInput) -> (r:
        Result<Vec<Contact>, Error>)
        requires
            old(self).db.wf(),
        ensures
            final(self).db.wf(),
            import_post(
                old(self).db@,
                final(self).db@,
                actor,
                input.namespace_id,
                input.list_id,
                input.contacts_csv@,
                r,
            ),
    {
        let ghost s0 = self.db@;
        let ns = input.namespace_id;
        let user = self.current_user(actor)?;
        if !self.check_namespace_membership(&user, ns) {
            return Err(Error::PermissionDenied);
        }
        if let Some(list_id) = input.list_id {
            match find_list(&self.db.lists, list_id) {
                Some(i) => {
                    proof {
                        lemma_list_index(self.db@, list_id, i as int);
                    }
                    if self.db.lists[i].namespace_id != ns {
                        return Err(Error::PermissionDenied);
                    }
                },
                None => {
                    return Err(Error::NewsletterListNotFound);
                },
            }
        }
        if input.contacts_csv.as_str().as_bytes().len() > MAX_IMPORT_CONTACTS_CSV_LENGTH {
            return Err(Error::ContactsCsvTooLarge);
        }
        assert(byte_len(input.contacts_csv@) <= MAX_IMPORT_CONTACTS_CSV_LENGTH);
        let recs = match prepare_import(input.contacts_csv.as_str()) {
            Ok(recs) => recs,
            Err(e) => {
                return Err(e);
            },
        };
        assert(import_refusal(s0, actor, ns, input.list_id, input.contacts_csv@) is None);
        let now = now_millis();
        let mut ids: Vec<u128> = Vec::new();
        let mut k: usize = 0;
        while k < recs.len()
            invariant
                k <= recs@.len(),
                ids@.len() == k,
            decreases recs@.len() - k,
        {
            ids.push(new_id());
            k = k + 1;
        }
        let out = self.import_contacts_with(&user, &input, now, &ids, &recs);
        let ghost text = input.contacts_csv@;
        assert(records_of(recs@).len() == recs@.len());
        assert(ids@.len() >= prepared(text)->Ok_0.len());
        assert(merge_post(s0, self.db@, ns, input.list_id, prepared(text)->Ok_0, now, ids@, out@));
        let ghost o = out@;
        let r: Result<Vec<Contact>, Error> = Ok(out);
        assert(import_refusal(s0, actor, ns, input.list_id, text) is None);
        assert(exists|now: i64, ids: Seq<u128>|
            ids.len() >= prepared(text)->Ok_0.len() && #[trigger] merge_post(
                s0,
                self.db@,
                ns,
                input.list_id,
                prepared(text)->Ok_0,
                now,
                ids,
                o,
            ));
        assert(r->Ok_0@ == o);
        assert(import_post(s0, self.db@, actor, ns, input.list_id, text, r));
        r
    }
}

proof fn lemma_first_contact(cs: Seq<Contact>, ns: u128, email: Seq<char>, i: int)
    requires
        0 <= i < cs.len(),
        cs[i].namespace_id == ns && cs[i].email@ == email,
    ensures
        contact_position(cs, ns, email) is Some,
        ({
            let p = contact_position(cs, ns, email)->Some_0;
            &&& 0 <= p < cs.len()
            &&& cs[p].namespace_id == ns && cs[p].email@ == email
            &&& forall|j: int|
                0 <= j < p ==> !((#[trigger] cs[j]).namespace_id == ns && cs[j].email@ == email)
        }),
    decreases i,
{
    if exists|j: int| 0 <= j < i && (#[trigger] cs[j]).namespace_id == ns && cs[j].email@ == email {
        let j = choose|j: int| 0 <= j < i && (#[trigger] cs[j]).namespace_id == ns && cs[j].email@ == email;
        lemma_first_contact(cs, ns, email, j);
    } else {
        lemma_contact_position(cs, ns, email, i);
    }
}

/// Where the single record `rec` ends up after being merged, and its name there.
proof fn lemma_single_merge(
    c0: Seq<Contact>,
    c1: Seq<Contact>,
    ns: u128,
    rec: (Seq<char>, Seq<char>),
    now: i64,
    ids: Seq<u128>,
    out: Seq<Contact>,
) -> (i: int)
    requires
        contacts_merged(c0, c1, ns, seq![rec], now, ids, out),
    ensures
        0 <= i < c1.len(),
        contact_position(c1, ns, rec.1) == Some(i),
        match contact_position(c0, ns, rec.1) {
            Some(i0) => i == i0 && c1[i].name@ == if rec.0.len() > 0 {
                rec.0
            } else {
                c0[i0].name@
            },
            None => c1[i].name@ == rec.0,
        },
{
    let recs = seq![rec];
    assert(recs[0] == rec);
    assert(new_before(c0, ns, recs, 0) == 0);
    match contact_position(c0, ns, rec.1) {
        Some(i0) => {
            let w = choose|w: int|
                0 <= w < c0.len() && (#[trigger] c0[w]).namespace_id == ns && c0[w].email@ == rec.1;
            lemma_first_contact(c0, ns, rec.1, w);
            assert(merged(c0[i0], out[0], rec, now) && c1[i0] == out[0]);
            assert(c1.len() == c0.len());
            assert forall|j: int| 0 <= j < i0 implies !((#[trigger] c1[j]).namespace_id == ns
                && c1[j].email@ == rec.1) by {
                assert(forall|k: int|
                    0 <= k < recs.len() ==> contact_position(c0, ns, (#[trigger] recs[k]).1) != Some(
                        j,
                    ));
                assert(c1[j] == c0[j]);
            }
            lemma_contact_position(c1, ns, rec.1, i0);
            i0
        },
        None => {
            let n = c0.len() as int;
            assert(created(out[0], rec, ns, now, ids[0]) && c1[n] == out[0]);
            assert forall|j: int| 0 <= j < n implies !((#[trigger] c1[j]).namespace_id == ns
                && c1[j].email@ == rec.1) by {
                assert(forall|k: int|
                    0 <= k < recs.len() ==> contact_position(c0, ns, (#[trigger] recs[k]).1) != Some(
                        j,
                    ));
                assert(c1[j] == c0[j]);
                if c0[j].namespace_id == ns && c0[j].email@ == rec.1 {
                    lemma_first_contact(c0, ns, rec.1, j);
                }
            }
            lemma_contact_position(c1, ns, rec.1, n);
            n
        },
    }
}

/// Importing a contact, then its email again with an empty name, keeps the
/// imported name; importing it once more with another non-empty name replaces it.
pub proof fn lemma_import_name_round_trip(
    c0: Seq<Contact>,
    c1: Seq<Contact>,
    c2: Seq<Contact>,
    c3: Seq<Contact>,
    ns: u128,
    email: Seq<char>,
    name1: Seq<char>,
    name2: Seq<char>,
    nows: Seq<i64>,
    ids1: Seq<u128>,
    ids2: Seq<u128>,
    ids3: Seq<u128>,
    out1: Seq<Contact>,
    out2: Seq<Contact>,
    out3: Seq<Contact>,
)
    requires
        nows.len() == 3,
        contacts_merged(c0, c1, ns, seq![(name1, email)], nows[0], ids1, out1),
        contacts_merged(c1, c2, ns, seq![(Seq::<char>::empty(), email)], nows[1], ids2, out2),
        contacts_merged(c2, c3, ns, seq![(name2, email)], nows[2], ids3, out3),
        name1.len() > 0,
        name2.len() > 0,
        name2 != name1,
    ensures
        contact_position(c1, ns, email) is Some,
        c1[contact_position(c1, ns, email)->Some_0].name@ == name1,
        contact_position(c2, ns, email) == contact_position(c1, ns, email),
        c2[contact_position(c2, ns, email)->Some_0].name@ == name1,
        contact_position(c3, ns, email) == contact_position(c1, ns, email),
        c3[contact_position(c3, ns, email)->Some_0].name@ == name2,
{
    let i1 = lemma_single_merge(c0, c1, ns, (name1, email), nows[0], ids1, out1);
    let i2 = lemma_single_merge(c1, c2, ns, (Seq::<char>::empty(), email), nows[1], ids2, out2);
    let i3 = lemma_single_merge(c2, c3, ns, (name2, email), nows[2], ids3, out3);
}

/// An import whose payload exceeds the size bound is refused as too large and
/// creates or changes no contact (for a member importing into an existing list
/// of the same namespace, or into none).
pub proof fn lemma_import_too_large(
    s0: Tables,
    s1: Tables,
    user: User,
    ns: u128,
    list_id: Option<u128>,
    text: Seq<char>,
    r: Result<Vec<Contact>, Error>,
)
    requires
        import_post(s0, s1, Some(user), ns, list_id, text, r),
        is_namespace_member(s0, user, ns),
        list_id is Some ==> list_index(s0, list_id->Some_0) is Some
            && s0.lists[list_index(s0, list_id->Some_0)->Some_0].namespace_id == ns,
        byte_len(text) > MAX_IMPORT_CONTACTS_CSV_LENGTH,
    ensures
        r == Err::<Vec<Contact>, Error>(Error::ContactsCsvTooLarge),
        s1 == s0,
        s1.contacts == s0.contacts,
{
}

/// An import into a list of another namespace is refused before any contact
/// is created or changed (for a member of the target namespace).
pub proof fn lemma_import_foreign_list(
    s0: Tables,
    s1: Tables,
    user: User,
    ns: u128,
    list_id: u128,
    text: Seq<char>,
    r: Result<Vec<Contact>, Error>,
)
    requires
        import_post(s0, s1, Some(user), ns, Some(list_id), text, r),
        is_namespace_member(s0, user, ns),
        list_index(s0, list_id) is Some,
        s0.lists[list_index(s0, list_id)->Some_0].namespace_id != ns,
    ensures
        r == Err::<Vec<Contact>, Error>(Error::PermissionDenied),
        s1 == s0,
{
}

} // verus!
