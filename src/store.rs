//! The credential store: labelled records whose passwords are kept sealed,
//! unique by label, with exact removal and approximate lookup.

use crate::encoding::{base64_decode, base64_encode, base64_of, string_from_utf8};
use crate::envelope::{CipherError, Envelope, ENVELOPE_OVERHEAD, SEAL_LIMIT};
use crate::fuzzy::{is_close_match, is_match};
use vstd::prelude::*;
use vstd::utf8::{decode_utf8, encode_utf8, valid_utf8};

verus! {

broadcast use {vstd::utf8::encode_utf8_valid_utf8, vstd::utf8::encode_utf8_decode_utf8};

/// A credential as it is persisted: the password field holds the base64 text
/// of the sealed password.
pub struct StoredEntry {
    pub label: String,
    pub description: String,
    pub username: String,
    pub password: String,
}

/// A credential with its password in plain text.
pub struct PasswordEntry {
    pub label: String,
    pub description: String,
    pub username: String,
    pub password: String,
}

/// Why a store operation failed.
#[derive(Debug, PartialEq, Eq, Structural)]
pub enum StoreError {
    /// An entry with the same label is already stored.
    DuplicateLabel,
    /// The cipher failed while sealing a password.
    Encryption,
    /// A stored password is not base64 text, or does not open to UTF-8.
    Decode,
    /// A stored password does not open under the store's key.
    Decryption,
}

/// Whether some record carries `label`.
pub open spec fn label_taken(records: Seq<StoredEntry>, label: Seq<char>) -> bool {
    exists|i: int| 0 <= i < records.len() && #[trigger] records[i].label@ == label
}

/// No two records share a label.
pub open spec fn labels_unique(records: Seq<StoredEntry>) -> bool {
    forall|i: int, j: int|
        0 <= i < j < records.len() ==> #[trigger] records[i].label@ != #[trigger] records[j].label@
}

/// Holds of the records not labelled `label`.
pub open spec fn label_differs(label: Seq<char>) -> spec_fn(StoredEntry) -> bool {
    |r: StoredEntry| r.label@ != label
}

/// Holds of the records whose labels match `query`.
pub open spec fn label_matches(query: Seq<char>) -> spec_fn(StoredEntry) -> bool {
    |r: StoredEntry| is_match(r.label@, query)
}

/// The records that remain once every record labelled `label` is deleted.
pub open spec fn without_label(records: Seq<StoredEntry>, label: Seq<char>) -> Seq<StoredEntry> {
    records.filter(label_differs(label))
}

/// The records whose labels match `query` within the edit-distance threshold.
pub open spec fn matching(records: Seq<StoredEntry>, query: Seq<char>) -> Seq<StoredEntry> {
    records.filter(label_matches(query))
}

/// What the password text of a record opens to under `env`: the plain
/// password, or the error that reading it meets first.
pub open spec fn open_password(env: Envelope, text: Seq<char>) -> Result<Seq<char>, StoreError> {
    if exists|c: Seq<u8>| base64_of(c) == text {
        let c = choose|c: Seq<u8>| base64_of(c) == text;
        match env.opens(c) {
            Some(b) => if valid_utf8(b) {
                Ok(decode_utf8(b))
            } else {
                Err(StoreError::Decode)
            },
            None => Err(StoreError::Decryption),
        }
    } else {
        Err(StoreError::Decode)
    }
}

/// Whether `entry` is `rec` with its password opened under `env`.
pub open spec fn decrypts_to(env: Envelope, rec: StoredEntry, entry: PasswordEntry) -> bool {
    &&& entry.label@ == rec.label@
    &&& entry.description@ == rec.description@
    &&& entry.username@ == rec.username@
    &&& open_password(env, rec.password@) == Ok::<Seq<char>, StoreError>(entry.password@)
}

/// Whether every record's password opens under `env`.
pub open spec fn all_open(env: Envelope, records: Seq<StoredEntry>) -> bool {
    forall|i: int| 0 <= i < records.len() ==> (#[trigger] open_password(env, records[i].password@)) is Ok
}

/// Whether `e` is the error met first when the records are opened in order.
pub open spec fn first_failure(env: Envelope, records: Seq<StoredEntry>, e: StoreError) -> bool {
    exists|i: int|
        0 <= i < records.len() && open_password(env, records[i].password@) == Err::<Seq<char>, StoreError>(e) && all_open(
            env,
            records.take(i),
        )
}

/// Whether `out` holds exactly `records`, in order, with passwords opened.
pub open spec fn decrypts_all(env: Envelope, records: Seq<StoredEntry>, out: Seq<PasswordEntry>) -> bool {
    &&& out.len() == records.len()
    &&& forall|i: int| 0 <= i < out.len() ==> decrypts_to(env, #[trigger] records[i], out[i])
}

/// Whether `rec` is the record that adding (`label`, `username`, `password`)
/// writes: an empty description, and as password the base64 text of the
/// password's UTF-8 bytes sealed under `env`, which is not the password.
pub open spec fn stores(
    env: Envelope,
    rec: StoredEntry,
    label: Seq<char>,
    username: Seq<char>,
    password: Seq<char>,
) -> bool {
    &&& rec.label@ == label
    &&& rec.description@ == Seq::<char>::empty()
    &&& rec.username@ == username
    &&& exists|c: Seq<u8>| base64_of(c) == rec.password@ && env.seals(encode_utf8(password), c)
    &&& open_password(env, rec.password@) == Ok::<Seq<char>, StoreError>(password)
    &&& rec.password@ != password
}

/// The outcome of adding an entry to `before`, giving `after` and `r`: refused
/// with `DuplicateLabel` when the label is taken; otherwise one sealed record
/// is appended, unless the password is too long to seal; a refusal changes
/// nothing.
pub open spec fn add_outcome(
    env: Envelope,
    before: Seq<StoredEntry>,
    label: Seq<char>,
    username: Seq<char>,
    password: Seq<char>,
    after: Seq<StoredEntry>,
    r: Result<(), StoreError>,
) -> bool {
    if label_taken(before, label) {
        r == Err::<(), StoreError>(StoreError::DuplicateLabel) && after == before
    } else if encode_utf8(password).len() < SEAL_LIMIT {
        &&& r is Ok
        &&& after.len() == before.len() + 1
        &&& after.drop_last() == before
        &&& stores(env, after.last(), label, username, password)
    } else {
        r == Err::<(), StoreError>(StoreError::Encryption) && after == before
    }
}

proof fn lemma_utf8_not_shorter(chars: Seq<char>)
    ensures
        chars.len() <= encode_utf8(chars).len(),
    decreases chars.len(),
{
    if chars.len() > 0 {
        lemma_utf8_not_shorter(chars.drop_first());
    }
}

proof fn lemma_filter_push(s: Seq<StoredEntry>, x: StoredEntry, p: spec_fn(StoredEntry) -> bool)
    ensures
        s.push(x).filter(p) == if p(x) {
            s.filter(p).push(x)
        } else {
            s.filter(p)
        },
{
    reveal_with_fuel(Seq::filter, 1);
    assert(s.push(x).drop_last() =~= s);
}

proof fn lemma_without_label_keeps_unique(records: Seq<StoredEntry>, label: Seq<char>)
    requires
        labels_unique(records),
    ensures
        labels_unique(without_label(records, label)),
    decreases records.len(),
{
    if records.len() > 0 {
        let rest = records.drop_last();
        assert(records =~= rest.push(records.last()));
        lemma_without_label_keeps_unique(rest, label);
        lemma_filter_push(rest, records.last(), label_differs(label));
        let kept = without_label(rest, label);
        assert forall|i: int| 0 <= i < kept.len() implies #[trigger] kept[i].label@ != records.last().label@ by {
            assert(kept.contains(kept[i]));
            rest.lemma_filter_contains_rev(label_differs(label), kept[i]);
            let j = choose|j: int| 0 <= j < rest.len() && rest[j] == kept[i];
            assert(records[j] == rest[j]);
        }
    }
}

/// Labels stay unique: once an entry has been added under a label, a second
/// addition under that label is refused with `DuplicateLabel` and leaves the
/// records, and the first entry's username and password, as they were.
pub proof fn lemma_duplicate_add_refused(
    env: Envelope,
    before: Seq<StoredEntry>,
    label: Seq<char>,
    username: Seq<char>,
    password: Seq<char>,
    between: Seq<StoredEntry>,
    username2: Seq<char>,
    password2: Seq<char>,
    after: Seq<StoredEntry>,
    r: Result<(), StoreError>,
)
    requires
        add_outcome(env, before, label, username, password, between, Ok(())),
        add_outcome(env, between, label, username2, password2, after, r),
    ensures
        r == Err::<(), StoreError>(StoreError::DuplicateLabel),
        after == between,
        stores(env, after.last(), label, username, password),
{
    if !label_taken(before, label) {
        assert(between[between.len() - 1].label@ == label);
    }
}

/// What is added is listed back: after a successful addition, a listing of
/// every record ends with the added label, username and password.
pub proof fn lemma_added_entry_listed(
    env: Envelope,
    before: Seq<StoredEntry>,
    label: Seq<char>,
    username: Seq<char>,
    password: Seq<char>,
    after: Seq<StoredEntry>,
    listing: Seq<PasswordEntry>,
)
    requires
        add_outcome(env, before, label, username, password, after, Ok(())),
        decrypts_all(env, after, listing),
    ensures
        listing.len() == before.len() + 1,
        listing.last().label@ == label,
        listing.last().username@ == username,
        listing.last().password@ == password,
{
    assert(decrypts_to(env, after[after.len() - 1], listing[listing.len() - 1]));
}

/// Removal is idempotent: removing a label a second time changes nothing.
pub proof fn lemma_remove_idempotent(records: Seq<StoredEntry>, label: Seq<char>)
    ensures
        without_label(without_label(records, label), label) == without_label(records, label),
    decreases records.len(),
{
    if records.len() > 0 {
        let rest = records.drop_last();
        let x = records.last();
        assert(records =~= rest.push(x));
        lemma_remove_idempotent(rest, label);
        lemma_filter_push(rest, x, label_differs(label));
        if x.label@ != label {
            lemma_filter_push(without_label(rest, label), x, label_differs(label));
        }
    }
}

/// Holds the store's records and the envelope that seals their passwords.
pub struct PasswordManager {
    envelope: Envelope,
    records: Vec<StoredEntry>,
}

impl PasswordManager {
    /// The stored records, oldest first.
    pub closed spec fn stored(&self) -> Seq<StoredEntry> {
        self.records@
    }

    /// The envelope under which passwords are sealed.
    pub closed spec fn cipher(&self) -> Envelope {
        self.envelope
    }

    /// The store's invariant: labels are unique.
    pub open spec fn wf(&self) -> bool {
        labels_unique(self.stored())
    }

    /// An empty store that seals under `envelope`.
    pub fn new(envelope: Envelope) -> (r: Self)
        ensures
            r.wf(),
            r.stored().len() == 0,
            r.cipher() == envelope,
    {
        PasswordManager { envelope, records: Vec::new() }
    }

    /// The stored records, oldest first, as they are to be persisted.
    pub fn stored_entries(&self) -> (r: &Vec<StoredEntry>)
        ensures
            r@ == self.stored(),
    {
        &self.records
    }

    /// Whether some record carries `label` exactly.
    pub fn has_label(&self, label: &str) -> (r: bool)
        ensures
            r == label_taken(self.stored(), label@),
    {
        let target = label.to_owned();
        let mut i: usize = 0;
        while i < self.records.len()
            invariant
                0 <= i <= self.records.len(),
                target@ == label@,
                forall|j: int| 0 <= j < i ==> self.records@[j].label@ != label@,
            decreases self.records.len() - i,
        {
            if self.records[i].label == target {
                return true;
            }
            i += 1;
        }
        false
    }

    /// Takes back a record that was persisted earlier; a record whose label
    /// is already held is refused.
    pub fn load_entry(&mut self, rec: StoredEntry) -> (r: Result<(), StoreError>)
        requires
            old(self).wf(),
        ensures
            final(self).wf(),
            final(self).cipher() == old(self).cipher(),
            label_taken(old(self).stored(), rec.label@) ==> r == Err::<(), StoreError>(
                StoreError::DuplicateLabel,
            ) && final(self).stored() == old(self).stored(),
            !label_taken(old(self).stored(), rec.label@) ==> r is Ok && final(self).stored()
                == old(self).stored().push(rec),
    {
        if self.has_label(rec.label.as_str()) {
            return Err(StoreError::DuplicateLabel);
        }
        self.records.push(rec);
        Ok(())
    }

    /// Adds `entry`, its password sealed with a nonce drawn from `seed`; its
    /// description is not kept. Refused when the label is already stored.
    pub fn add_entry(&mut self, entry: &PasswordEntry, seed: &[u8; 32]) -> (r: Result<(), StoreError>)
        requires
            old(self).wf(),
        ensures
            final(self).wf(),
            final(self).cipher() == old(self).cipher(),
            add_outcome(
                old(self).cipher(),
                old(self).stored(),
                entry.label@,
                entry.username@,
                entry.password@,
                final(self).stored(),
                r,
            ),
    {
        if self.has_label(entry.label.as_str()) {
            return Err(StoreError::DuplicateLabel);
        }
        let sealed = match self.envelope.wrap(entry.password.as_str().as_bytes(), seed) {
            Ok(c) => c,
            Err(_) => return Err(StoreError::Encryption),
        };
        let text = base64_encode(sealed.as_slice());
        let rec = StoredEntry {
            label: entry.label.clone(),
            description: String::new(),
            username: entry.username.clone(),
            password: text,
        };
        proof {
            let p = entry.password@;
            assert(base64_of(sealed@) == rec.password@);
            assert(self.envelope.opens(sealed@) == Some(encode_utf8(p)));
            assert(open_password(self.envelope, rec.password@) == Ok::<Seq<char>, StoreError>(p));
            let n = sealed@.len();
            lemma_utf8_not_shorter(p);
            assert(rec.password@.len() == 4 * ((n + 2) / 3));
            assert(4 * ((n + 2) / 3) > n - ENVELOPE_OVERHEAD) by (nonlinear_arith)
                requires
                    n >= ENVELOPE_OVERHEAD,
            ;
            assert(rec.password@ != p);
        }
        let ghost before = self.records@;
        self.records.push(rec);
        proof {
            assert(self.records@.drop_last() =~= before);
            assert forall|i: int, j: int| 0 <= i < j < self.records@.len() implies
                #[trigger] self.records@[i].label@ != #[trigger] self.records@[j].label@ by {
                if j == before.len() {
                    assert(before[i].label@ != entry.label@);
                }
            }
        }
        Ok(())
    }

    /// Opens one record's password.
    fn decrypt_record(&self, rec: &StoredEntry) -> (r: Result<PasswordEntry, StoreError>)
        ensures
            match r {
                Ok(e) => decrypts_to(self.cipher(), *rec, e),
                Err(e) => open_password(self.cipher(), rec.password@) == Err::<Seq<char>, StoreError>(e),
            },
    {
        let sealed = match base64_decode(rec.password.as_str()) {
            Ok(b) => b,
            Err(_) => return Err(StoreError::Decode),
        };
        proof {
            let c = choose|c: Seq<u8>| base64_of(c) == rec.password@;
            assert(c == sealed@);
        }
        let plain = match self.envelope.unwrap(sealed.as_slice()) {
            Ok(p) => p,
            Err(_) => return Err(StoreError::Decryption),
        };
        let password = match string_from_utf8(plain) {
            Some(s) => s,
            None => return Err(StoreError::Decode),
        };
        Ok(
            PasswordEntry {
                label: rec.label.clone(),
                description: rec.description.clone(),
                username: rec.username.clone(),
                password,
            },
        )
    }

    /// Every record with its password opened, oldest first. The first record
    /// that does not open aborts the listing with its error.
    pub fn get_entries(&self) -> (r: Result<Vec<PasswordEntry>, StoreError>)
        ensures
            r is Ok <==> all_open(self.cipher(), self.stored()),
            match r {
                Ok(v) => decrypts_all(self.cipher(), self.stored(), v@),
                Err(e) => first_failure(self.cipher(), self.stored(), e),
            },
    {
        let mut out: Vec<PasswordEntry> = Vec::new();
        let mut i: usize = 0;
        while i < self.records.len()
            invariant
                0 <= i <= self.records.len(),
                all_open(self.cipher(), self.stored().take(i as int)),
                decrypts_all(self.cipher(), self.stored().take(i as int), out@),
            decreases self.records.len() - i,
        {
            match self.decrypt_record(&self.records[i]) {
                Ok(e) => {
                    out.push(e);
                },
                Err(e) => {
                    proof {
                        assert(first_failure(self.cipher(), self.stored(), e));
                        assert(!all_open(self.cipher(), self.stored()));
                    }
                    return Err(e);
                },
            }
            i += 1;
            proof {
                assert forall|j: int| 0 <= j < i implies (#[trigger] open_password(
                    self.cipher(),
                    self.stored().take(i as int)[j].password@,
                )) is Ok by {
                    assert(self.stored().take(i as int)[j] == self.stored().take(i - 1)[j] || j == i - 1);
                }
            }
        }
        proof {
            assert(self.stored().take(i as int) =~= self.stored());
        }
        Ok(out)
    }

    /// The entries whose labels lie within the edit-distance threshold of
    /// `query`, oldest first, with passwords opened. Every record is opened,
    /// matching or not: the first that does not open gives the error.
    pub fn find_by_label(&self, query: &str) -> (r: Result<Vec<PasswordEntry>, StoreError>)
        ensures
            r is Ok <==> all_open(self.cipher(), self.stored()),
            match r {
                Ok(v) => decrypts_all(self.cipher(), matching(self.stored(), query@), v@),
                Err(e) => first_failure(self.cipher(), self.stored(), e),
            },
    {
        let mut out: Vec<PasswordEntry> = Vec::new();
        let mut i: usize = 0;
        while i < self.records.len()
            invariant
                0 <= i <= self.records.len(),
                all_open(self.cipher(), self.stored().take(i as int)),
                decrypts_all(self.cipher(), matching(self.stored().take(i as int), query@), out@),
            decreases self.records.len() - i,
        {
            let ghost seen = self.stored().take(i as int);
            let ghost rec = self.stored()[i as int];
            match self.decrypt_record(&self.records[i]) {
                Ok(e) => {
                    if is_close_match(self.records[i].label.as_str(), query) {
                        out.push(e);
                    }
                },
                Err(e) => {
                    proof {
                        assert(first_failure(self.cipher(), self.stored(), e));
                    }
                    return Err(e);
                },
            }
            i += 1;
            proof {
                assert(self.stored().take(i as int) =~= seen.push(rec));
                lemma_filter_push(seen, rec, label_matches(query@));
                assert forall|j: int| 0 <= j < i implies (#[trigger] open_password(
                    self.cipher(),
                    self.stored().take(i as int)[j].password@,
                )) is Ok by {
                    assert(self.stored().take(i as int)[j] == seen[j] || j == i - 1);
                }
            }
        }
        proof {
            assert(self.stored().take(i as int) =~= self.stored());
        }
        Ok(out)
    }

    /// Like `find_by_label`, but a record that does not open yields an empty
    /// result rather than an error, so no match and a corrupt store look alike.
    pub fn search_password(&self, query: &str) -> (r: Vec<PasswordEntry>)
        ensures
            all_open(self.cipher(), self.stored()) ==> decrypts_all(
                self.cipher(),
                matching(self.stored(), query@),
                r@,
            ),
            !all_open(self.cipher(), self.stored()) ==> r@.len() == 0,
    {
        match self.find_by_label(query) {
            Ok(v) => v,
            Err(_) => Vec::new(),
        }
    }

    /// Deletes every record labelled exactly `label`; nothing happens when
    /// none is.
    pub fn remove_entry(&mut self, label: &str)
        requires
            old(self).wf(),
        ensures
            final(self).wf(),
            final(self).cipher() == old(self).cipher(),
            final(self).stored() == without_label(old(self).stored(), label@),
    {
        let target = label.to_owned();
        let ghost before = self.records@;
        let ghost mut k: int = 0;
        let mut i: usize = 0;
        while i < self.records.len()
            invariant
                0 <= i <= self.records.len(),
                0 <= k <= before.len(),
                self.records.len() - i == before.len() - k,
                target@ == label@,
                self.envelope == old(self).envelope,
                self.records@.take(i as int) == without_label(before.take(k), label@),
                self.records@.skip(i as int) == before.skip(k),
            decreases before.len() - k,
        {
            proof {
                assert(self.records@.skip(i as int)[0] == before.skip(k)[0]);
            }
            let ghost rec = before[k];
            let ghost seen = before.take(k);
            if self.records[i].label == target {
                let ghost kept = self.records@.take(i as int);
                let ghost cur = self.records@;
                self.records.remove(i);
                proof {
                    assert(self.records@.take(i as int) =~= kept);
                    assert(self.records@.skip(i as int) =~= cur.skip(i as int).skip(1));
                    assert(before.skip(k + 1) =~= before.skip(k).skip(1));
                }
            } else {
                let ghost kept = self.records@.take(i as int);
                let ghost cur = self.records@;
                i += 1;
                proof {
                    assert(cur[i - 1] == rec);
                    assert(self.records@.take(i as int) =~= kept.push(rec));
                    assert(self.records@.skip(i as int) =~= cur.skip(i - 1).skip(1));
                    assert(before.skip(k + 1) =~= before.skip(k).skip(1));
                }
            }
            proof {
                assert(before.take(k + 1) =~= seen.push(rec));
                lemma_filter_push(seen, rec, label_differs(label@));
                k = k + 1;
            }
        }
        proof {
            assert(before.skip(k).len() == 0);
            assert(before.take(k) =~= before);
            assert(self.records@.take(i as int) =~= self.records@);
            lemma_without_label_keeps_unique(before, label@);
        }
    }
}

} // verus!
