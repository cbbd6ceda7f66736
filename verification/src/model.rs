//! The decrypted domain objects: vault, entries and their change history.
//!
//! A vault owns a collection of uniquely named entries. Each entry holds its
//! current secret, optional descriptive fields, tags, timestamps and a
//! most-recent-first history of password changes. The history forms a hash
//! chain: every record's id is the content hash of its own fields plus its
//! parent's id, so tampering is detectable by recomputation.
use vstd::prelude::*;

verus! {

use crate::clock::{MAX_TIMESTAMP, rfc3339_utc, format_rfc3339, now_epoch_seconds};
use crate::hasher::{spec_compute_id, compute_id};
use crate::VaultError;

// ---------------------------------------------------------------------------
// Data and views
// ---------------------------------------------------------------------------

/// One password rotation, hash-chained to its predecessor.
#[derive(Debug, Clone, PartialEq)]
pub struct ChangeRecord {
    /// Lowercase-hex content hash of this record (see `hasher`).
    pub id: String,
    pub author: String,
    /// Epoch seconds, UTC.
    pub changed_at: u64,
    /// The secret this rotation replaced.
    pub previous_secret: String,
    /// The id of the next-older record, absent on the first change.
    pub parent_id: Option<String>,
}

/// One named credential.
#[derive(Debug, Clone, PartialEq)]
pub struct Entry {
    pub name: String,
    pub secret: String,
    pub comment: Option<String>,
    pub user_hint: Option<String>,
    pub uri: Option<String>,
    pub tags: Vec<String>,
    /// Epoch seconds, UTC.
    pub created_at: u64,
    /// Epoch seconds, UTC; always the newest change, or `created_at`.
    pub last_modified_at: u64,
    /// Most-recent-first change history.
    pub history: Vec<ChangeRecord>,
}

/// The decrypted vault: an owner label and its entries.
#[derive(Debug, Clone, PartialEq)]
pub struct Vault {
    pub owner: String,
    pub entries: Vec<Entry>,
}

#[verifier::ext_equal]
pub struct RecordView {
    pub id: Seq<char>,
    pub author: Seq<char>,
    pub changed_at: u64,
    pub previous_secret: Seq<char>,
    pub parent_id: Option<Seq<char>>,
}

#[verifier::ext_equal]
pub struct EntryView {
    pub name: Seq<char>,
    pub secret: Seq<char>,
    pub comment: Option<Seq<char>>,
    pub user_hint: Option<Seq<char>>,
    pub uri: Option<Seq<char>>,
    pub tags: Seq<Seq<char>>,
    pub created_at: u64,
    pub last_modified_at: u64,
    pub history: Seq<RecordView>,
}

#[verifier::ext_equal]
pub struct VaultView {
    pub owner: Seq<char>,
    pub entries: Seq<EntryView>,
}

impl DeepView for ChangeRecord {
    type V = RecordView;

    open spec fn deep_view(&self) -> RecordView {
        RecordView {
            id: self.id@,
            author: self.author@,
            changed_at: self.changed_at,
            previous_secret: self.previous_secret@,
            parent_id: self.parent_id.deep_view(),
        }
    }
}

impl DeepView for Entry {
    type V = EntryView;

    open spec fn deep_view(&self) -> EntryView {
        EntryView {
            name: self.name@,
            secret: self.secret@,
            comment: self.comment.deep_view(),
            user_hint: self.user_hint.deep_view(),
            uri: self.uri.deep_view(),
            tags: self.tags.deep_view(),
            created_at: self.created_at,
            last_modified_at: self.last_modified_at,
            history: self.history.deep_view(),
        }
    }
}

impl DeepView for Vault {
    type V = VaultView;

    open spec fn deep_view(&self) -> VaultView {
        VaultView { owner: self.owner@, entries: self.entries.deep_view() }
    }
}

// ---------------------------------------------------------------------------
// Well-formedness and the hash chain
// ---------------------------------------------------------------------------

/// The id of the newest record, if any: what the next change will link to.
pub open spec fn head_id(h: Seq<RecordView>) -> Option<Seq<char>> {
    if h.len() > 0 {
        Some(h[0].id)
    } else {
        None
    }
}

/// The secret that record `i` introduced: the entry's current secret for the
/// newest record, else the secret the next-newer record replaced.
pub open spec fn chain_new_secret(secret: Seq<char>, h: Seq<RecordView>, i: int) -> Seq<char> {
    if i == 0 {
        secret
    } else {
        h[i - 1].previous_secret
    }
}

/// The parent a record at index `i` of a most-recent-first history must name:
/// the next-older record's id, or nothing for the oldest record.
pub open spec fn chain_parent(h: Seq<RecordView>, i: int) -> Option<Seq<char>> {
    if i + 1 < h.len() {
        Some(h[i + 1].id)
    } else {
        None
    }
}

/// Record `i` is sound: its stored id is the content hash recomputed over its
/// own fields and its parent's id, and its parent link names that parent.
pub open spec fn record_linked(secret: Seq<char>, h: Seq<RecordView>, i: int) -> bool {
    &&& h[i].id == spec_compute_id(
        h[i].author,
        h[i].previous_secret,
        chain_new_secret(secret, h, i),
        rfc3339_utc(h[i].changed_at),
        chain_parent(h, i),
    )
    &&& h[i].parent_id == chain_parent(h, i)
}

/// The whole history is a sound hash chain for an entry whose current secret
/// is `secret`.
pub open spec fn chain_wf(secret: Seq<char>, h: Seq<RecordView>) -> bool {
    forall|i: int| 0 <= i < h.len() ==> #[trigger] record_linked(secret, h, i)
}

impl EntryView {
    /// Timestamps the engine can render.
    pub open spec fn times_ok(self) -> bool {
        &&& self.created_at <= MAX_TIMESTAMP
        &&& self.last_modified_at <= MAX_TIMESTAMP
        &&& forall|i: int|
            0 <= i < self.history.len() ==> (#[trigger] self.history[i]).changed_at
                <= MAX_TIMESTAMP
    }

    /// The last-modified time is the newest change, or creation when the
    /// history is empty.
    pub open spec fn last_modified_ok(self) -> bool {
        self.last_modified_at == if self.history.len() > 0 {
            self.history[0].changed_at
        } else {
            self.created_at
        }
    }

    pub open spec fn wf(self) -> bool {
        self.times_ok() && self.last_modified_ok() && tags_unique(self.tags)
    }

    /// The entry's history is a sound hash chain.
    pub open spec fn chain_ok(self) -> bool {
        chain_wf(self.secret, self.history)
    }
}

/// No two entries share a name.
pub open spec fn names_unique(entries: Seq<EntryView>) -> bool {
    forall|i: int, j: int|
        0 <= i < j < entries.len() ==> (#[trigger] entries[i]).name != (#[trigger] entries[j]).name
}

/// No tag occurs twice on one entry: the tag list represents a set.
pub open spec fn tags_unique(tags: Seq<Seq<char>>) -> bool {
    forall|i: int, j: int| 0 <= i < j < tags.len() ==> (#[trigger] tags[i]) != (#[trigger] tags[j])
}

/// Some entry carries this name.
pub open spec fn has_name(entries: Seq<EntryView>, name: Seq<char>) -> bool {
    exists|i: int| 0 <= i < entries.len() && (#[trigger] entries[i]).name == name
}

impl VaultView {
    pub open spec fn wf(self) -> bool {
        &&& names_unique(self.entries)
        &&& forall|i: int| 0 <= i < self.entries.len() ==> (#[trigger] self.entries[i]).wf()
    }
}

// ---------------------------------------------------------------------------
// Constructors and operations
// ---------------------------------------------------------------------------

/// A fresh entry: no optional fields, no tags, no history.
pub open spec fn spec_new_entry(name: Seq<char>, secret: Seq<char>, created_at: u64) -> EntryView {
    EntryView {
        name,
        secret,
        comment: None,
        user_hint: None,
        uri: None,
        tags: Seq::empty(),
        created_at,
        last_modified_at: created_at,
        history: Seq::empty(),
    }
}

/// The entry after one password change at `changed_at`: a new record hashed
/// over the change and linked to the old head is prepended, the secret is
/// replaced and the modification time advanced.
pub open spec fn spec_password_change(
    e: EntryView,
    author: Seq<char>,
    new_secret: Seq<char>,
    changed_at: u64,
) -> EntryView {
    let rec = RecordView {
        id: spec_compute_id(
            author,
            e.secret,
            new_secret,
            rfc3339_utc(changed_at),
            head_id(e.history),
        ),
        author,
        changed_at,
        previous_secret: e.secret,
        parent_id: head_id(e.history),
    };
    EntryView {
        secret: new_secret,
        last_modified_at: changed_at,
        history: seq![rec] + e.history,
        ..e
    }
}

impl Entry {
    /// Creates a fresh entry with the given creation time.
    pub fn new_at(name: String, secret: String, created_at: u64) -> (e: Entry)
        requires
            created_at <= MAX_TIMESTAMP,
        ensures
            e.deep_view() == spec_new_entry(name@, secret@, created_at),
            e.deep_view().wf(),
            e.deep_view().chain_ok(),
    {
        let e = Entry {
            name,
            secret,
            comment: None,
            user_hint: None,
            uri: None,
            tags: Vec::new(),
            created_at,
            last_modified_at: created_at,
            history: Vec::new(),
        };
        proof {
            assert(e.deep_view() =~~= spec_new_entry(e.name@, e.secret@, created_at));
        }
        e
    }

    /// Creates a fresh entry stamped with the current time.
    ///
    /// Fails only when the system clock reports a time the engine cannot
    /// represent.
    pub fn new(name: String, secret: String) -> (r: Result<Entry, VaultError>)
        ensures
            r matches Ok(e) ==> {
                &&& exists|t: u64|
                    t <= MAX_TIMESTAMP && e.deep_view() == spec_new_entry(name@, secret@, t)
                &&& e.deep_view().wf()
                &&& e.deep_view().chain_ok()
            },
            r matches Err(err) ==> err == VaultError::ClockError,
    {
        let t = now_epoch_seconds();
        if t < 0 {
            return Err(VaultError::ClockError);
        }
        let tu = t as u64;
        if tu > MAX_TIMESTAMP {
            return Err(VaultError::ClockError);
        }
        let e = Entry::new_at(name, secret, tu);
        Ok(e)
    }

    /// Rotates the entry's password at `changed_at`.
    ///
    /// Appends one hash-chained record for the rotation, retains the replaced
    /// secret in it, installs the new secret and advances the modification
    /// time. This is the sole writer of `history`. Fails only when the digest
    /// primitive faults, and then leaves the entry unchanged.
    pub fn add_password_change_at(&mut self, author: &str, new_secret: &str, changed_at: u64) -> (r:
        Result<(), VaultError>)
        requires
            old(self).deep_view().wf(),
            changed_at <= MAX_TIMESTAMP,
        ensures
            r matches Ok(()) ==> {
                &&& final(self).deep_view() == spec_password_change(
                    old(self).deep_view(),
                    author@,
                    new_secret@,
                    changed_at,
                )
                &&& final(self).deep_view().wf()
                &&& (old(self).deep_view().chain_ok() ==> final(self).deep_view().chain_ok())
            },
            r matches Err(e) ==> e == VaultError::CipherError && *final(self) == *old(self),
    {
        let ghost od = old(self).deep_view();
        let ts = format_rfc3339(changed_at);
        let parent: Option<&str> = if self.history.len() > 0 {
            Some(self.history[0].id.as_str())
        } else {
            None
        };
        let id = match compute_id(author, self.secret.as_str(), new_secret, ts.as_str(), parent) {
            Ok(s) => s,
            Err(e) => {
                return Err(e);
            },
        };
        let parent_owned: Option<String> = if self.history.len() > 0 {
            Some(self.history[0].id.clone())
        } else {
            None
        };
        let previous = self.secret.clone();
        let rec = ChangeRecord {
            id,
            author: author.to_owned(),
            changed_at,
            previous_secret: previous,
            parent_id: parent_owned,
        };
        self.secret = new_secret.to_owned();
        self.last_modified_at = changed_at;
        self.history.insert(0, rec);
        proof {
            let nd = self.deep_view();
            assert(nd.history =~= seq![rec.deep_view()] + od.history);
            assert(nd =~~= spec_password_change(od, author@, new_secret@, changed_at));
            if od.chain_ok() {
                lemma_password_change_chain(od, author@, new_secret@, changed_at);
            }
        }
        Ok(())
    }

    /// Rotates the entry's password, stamped with the current time.
    ///
    /// Fails only on a digest fault or when the system clock reports a time
    /// the engine cannot represent; either way the entry is left unchanged.
    pub fn add_password_change(&mut self, author: &str, new_secret: &str) -> (r: Result<
        (),
        VaultError,
    >)
        requires
            old(self).deep_view().wf(),
        ensures
            r matches Ok(()) ==> {
                &&& exists|t: u64|
                    t <= MAX_TIMESTAMP && final(self).deep_view() == spec_password_change(
                        old(self).deep_view(),
                        author@,
                        new_secret@,
                        t,
                    )
                &&& final(self).deep_view().wf()
                &&& (old(self).deep_view().chain_ok() ==> final(self).deep_view().chain_ok())
            },
            r matches Err(e) ==> (e == VaultError::CipherError || e == VaultError::ClockError)
                && *final(self) == *old(self),
    {
        let t = now_epoch_seconds();
        if t < 0 {
            return Err(VaultError::ClockError);
        }
        let tu = t as u64;
        if tu > MAX_TIMESTAMP {
            return Err(VaultError::ClockError);
        }
        self.add_password_change_at(author, new_secret, tu)
    }
}

impl ChangeRecord {
    /// A field-by-field copy.
    pub fn duplicate(&self) -> (r: ChangeRecord)
        ensures
            r == *self,
    {
        ChangeRecord {
            id: self.id.clone(),
            author: self.author.clone(),
            changed_at: self.changed_at,
            previous_secret: self.previous_secret.clone(),
            parent_id: match &self.parent_id {
                Some(p) => Some(p.clone()),
                None => None,
            },
        }
    }
}

impl Entry {
    /// A field-by-field copy.
    pub fn duplicate(&self) -> (r: Entry)
        ensures
            r.deep_view() == self.deep_view(),
    {
        let mut tags: Vec<String> = Vec::new();
        let n = self.tags.len();
        for i in 0..n
            invariant
                n == self.tags.len(),
                tags@.len() == i,
                forall|j: int| 0 <= j < i ==> tags@[j] == self.tags@[j],
        {
            tags.push(self.tags[i].clone());
        }
        let mut history: Vec<ChangeRecord> = Vec::new();
        let m = self.history.len();
        for i in 0..m
            invariant
                m == self.history.len(),
                history@.len() == i,
                forall|j: int| 0 <= j < i ==> history@[j] == self.history@[j],
        {
            history.push(self.history[i].duplicate());
        }
        let r = Entry {
            name: self.name.clone(),
            secret: self.secret.clone(),
            comment: match &self.comment {
                Some(s) => Some(s.clone()),
                None => None,
            },
            user_hint: match &self.user_hint {
                Some(s) => Some(s.clone()),
                None => None,
            },
            uri: match &self.uri {
                Some(s) => Some(s.clone()),
                None => None,
            },
            tags,
            created_at: self.created_at,
            last_modified_at: self.last_modified_at,
            history,
        };
        proof {
            assert(r.deep_view() =~~= self.deep_view());
        }
        r
    }

    /// Recomputes every record's id over its own fields and its parent's id,
    /// and checks every parent link, as on load. Returns whether the stored
    /// chain matches; fails only when the digest primitive faults.
    pub fn verify_history(&self) -> (r: Result<bool, VaultError>)
        requires
            self.deep_view().times_ok(),
        ensures
            r matches Ok(b) ==> b == self.deep_view().chain_ok(),
            r matches Err(e) ==> e == VaultError::CipherError,
    {
        let ghost dv = self.deep_view();
        let n = self.history.len();
        for i in 0..n
            invariant
                n == self.history.len(),
                dv == self.deep_view(),
                dv.times_ok(),
                forall|j: int| 0 <= j < i ==> #[trigger] record_linked(dv.secret, dv.history, j),
        {
            let rec = &self.history[i];
            assert((#[trigger] dv.history[i as int]).changed_at <= MAX_TIMESTAMP);
            let ts = format_rfc3339(rec.changed_at);
            let new_secret: &str = if i == 0 {
                self.secret.as_str()
            } else {
                self.history[i - 1].previous_secret.as_str()
            };
            let parent: Option<&str> = if i + 1 < n {
                Some(self.history[i + 1].id.as_str())
            } else {
                None
            };
            let expected = match compute_id(
                rec.author.as_str(),
                rec.previous_secret.as_str(),
                new_secret,
                ts.as_str(),
                parent,
            ) {
                Ok(s) => s,
                Err(e) => {
                    return Err(e);
                },
            };
            if !expected.eq(&rec.id) {
                assert(!record_linked(dv.secret, dv.history, i as int));
                return Ok(false);
            }
            let parent_ok: bool = match &rec.parent_id {
                Some(p) => i + 1 < n && p.eq(&self.history[i + 1].id),
                None => i + 1 == n,
            };
            if !parent_ok {
                assert(!record_linked(dv.secret, dv.history, i as int));
                return Ok(false);
            }
            assert(record_linked(dv.secret, dv.history, i as int));
        }
        Ok(true)
    }
}

/// Finds the index of the entry with this name, if one exists.
fn find_index(entries: &Vec<Entry>, name: &String) -> (r: Option<usize>)
    ensures
        r matches Some(i) ==> i < entries.deep_view().len() && entries.deep_view()[i as int].name
            == name@,
        r is None ==> !has_name(entries.deep_view(), name@),
{
    let n = entries.len();
    let mut i: usize = 0;
    while i < n
        invariant
            i <= n,
            n == entries.len(),
            forall|j: int| 0 <= j < i ==> (#[trigger] entries.deep_view()[j]).name != name@,
        decreases n - i,
    {
        if entries[i].name.eq(name) {
            return Some(i);
        }
        i += 1;
    }
    None
}

impl Vault {
    /// A fresh vault with no entries.
    pub fn new(owner: String) -> (v: Vault)
        ensures
            v.deep_view() == (VaultView { owner: owner@, entries: Seq::empty() }),
            v.deep_view().wf(),
    {
        let v = Vault { owner, entries: Vec::new() };
        proof {
            assert(v.deep_view() =~~= (VaultView { owner: v.owner@, entries: Seq::empty() }));
        }
        v
    }

    /// Whether the vault holds no entries.
    pub fn is_empty(&self) -> (b: bool)
        ensures
            b == (self.deep_view().entries.len() == 0),
    {
        self.entries.is_empty()
    }

    /// Read-only access to the entries, in storage order.
    pub fn entries(&self) -> (r: &Vec<Entry>)
        ensures
            r.deep_view() == self.deep_view().entries,
    {
        &self.entries
    }

    /// Whether an entry with this name exists; names are case-sensitive.
    pub fn has_entry(&self, name: &String) -> (b: bool)
        ensures
            b == has_name(self.deep_view().entries, name@),
    {
        match find_index(&self.entries, name) {
            Some(_) => true,
            None => false,
        }
    }

    /// The entry with this name, if one exists.
    pub fn get_entry(&self, name: &String) -> (r: Option<&Entry>)
        ensures
            r matches Some(e) ==> has_name(self.deep_view().entries, name@) && e.deep_view().name
                == name@ && exists|i: int|
                0 <= i < self.deep_view().entries.len() && (#[trigger] self.deep_view().entries[i])
                    == e.deep_view(),
            r is None ==> !has_name(self.deep_view().entries, name@),
    {
        match find_index(&self.entries, name) {
            Some(i) => Some(&self.entries[i]),
            None => None,
        }
    }

    /// Stores `ent` under its own name: an entry of the same name is
    /// replaced in place, otherwise `ent` is appended. This is the path for
    /// field edits, which carry the entry's history along untouched.
    pub fn put_entry(&mut self, ent: Entry)
        requires
            old(self).deep_view().wf(),
            ent.deep_view().wf(),
        ensures
            final(self).deep_view().owner == old(self).deep_view().owner,
            final(self).deep_view().wf(),
            !has_name(old(self).deep_view().entries, ent.deep_view().name) ==> final(self).deep_view().entries == old(self).deep_view().entries.push(ent.deep_view()),
            has_name(old(self).deep_view().entries, ent.deep_view().name) ==> exists|i: int|
                0 <= i < old(self).deep_view().entries.len() && (#[trigger] old(self).deep_view().entries[i]).name == ent.deep_view().name && final(self).deep_view().entries == old(self).deep_view().entries.update(i, ent.deep_view()),
    {
        let ghost od = old(self).deep_view();
        match find_index(&self.entries, &ent.name) {
            Some(i) => {
                let ghost ev = ent.deep_view();
                self.entries.remove(i);
                self.entries.insert(i, ent);
                proof {
                    assert(self.deep_view().entries =~~= od.entries.update(i as int, ev));
                    lemma_wf_after_update(od, i as int, ev);
                }
            },
            None => {
                let ghost ev = ent.deep_view();
                self.entries.push(ent);
                proof {
                    assert(self.deep_view().entries =~~= od.entries.push(ev));
                    lemma_wf_after_push(od, ev);
                }
            },
        }
    }

    /// Adds a fresh entry under `name` with the given creation time and
    /// returns a copy of it. An existing entry of the same name is replaced
    /// in place; otherwise the new entry is appended.
    pub fn add_entry_at(&mut self, name: String, secret: String, created_at: u64) -> (r: Entry)
        requires
            old(self).deep_view().wf(),
            created_at <= MAX_TIMESTAMP,
        ensures
            r.deep_view() == spec_new_entry(name@, secret@, created_at),
            final(self).deep_view().owner == old(self).deep_view().owner,
            final(self).deep_view().wf(),
            !has_name(old(self).deep_view().entries, name@) ==> final(self).deep_view().entries
                == old(self).deep_view().entries.push(spec_new_entry(name@, secret@, created_at)),
            has_name(old(self).deep_view().entries, name@) ==> exists|i: int|
                0 <= i < old(self).deep_view().entries.len() && (#[trigger] old(
                    self,
                ).deep_view().entries[i]).name == name@ && final(self).deep_view().entries == old(
                    self,
                ).deep_view().entries.update(i, spec_new_entry(name@, secret@, created_at)),
    {
        let ent = Entry::new_at(name, secret, created_at);
        let copy = ent.duplicate();
        self.put_entry(ent);
        copy
    }

    /// Adds a fresh entry stamped with the current time and returns a copy.
    ///
    /// Fails only when the system clock reports a time the engine cannot
    /// represent, and then leaves the vault unchanged.
    pub fn add_entry(&mut self, name: String, secret: String) -> (r: Result<Entry, VaultError>)
        requires
            old(self).deep_view().wf(),
        ensures
            r matches Ok(ent) ==> {
                &&& final(self).deep_view().owner == old(self).deep_view().owner
                &&& final(self).deep_view().wf()
                &&& has_name(final(self).deep_view().entries, name@)
                &&& exists|t: u64|
                    {
                        &&& t <= MAX_TIMESTAMP
                        &&& ent.deep_view() == #[trigger] spec_new_entry(name@, secret@, t)
                        &&& (!has_name(old(self).deep_view().entries, name@) ==> final(self).deep_view().entries == old(self).deep_view().entries.push(spec_new_entry(name@, secret@, t)))
                        &&& (has_name(old(self).deep_view().entries, name@) ==> exists|i: int|
                            0 <= i < old(self).deep_view().entries.len() && (#[trigger] old(self).deep_view().entries[i]).name == name@ && final(self).deep_view().entries == old(self).deep_view().entries.update(i, spec_new_entry(name@, secret@, t)))
                    }
            },
            r matches Err(e) ==> e == VaultError::ClockError && *final(self) == *old(self),
    {
        let t = now_epoch_seconds();
        if t < 0 {
            return Err(VaultError::ClockError);
        }
        let tu = t as u64;
        if tu > MAX_TIMESTAMP {
            return Err(VaultError::ClockError);
        }
        let ghost od = old(self).deep_view();
        let ent = self.add_entry_at(name, secret, tu);
        proof {
            let nd = self.deep_view();
            if has_name(od.entries, name@) {
                let i = choose|i: int|
                    0 <= i < od.entries.len() && (#[trigger] od.entries[i]).name == name@
                        && nd.entries == od.entries.update(i, spec_new_entry(name@, secret@, tu));
                assert(nd.entries[i].name == name@);
            } else {
                assert(nd.entries[od.entries.len() as int].name == name@);
            }
        }
        Ok(ent)
    }
}

impl Vault {
    /// Recomputes every entry's hash chain, as after a load. Returns whether
    /// all stored chains match; fails only when the digest primitive faults.
    pub fn verify_histories(&self) -> (r: Result<bool, VaultError>)
        requires
            self.deep_view().wf(),
        ensures
            r matches Ok(b) ==> b == (forall|i: int|
                0 <= i < self.deep_view().entries.len() ==> (#[trigger] self.deep_view().entries[i]).chain_ok()),
            r matches Err(e) ==> e == VaultError::CipherError,
    {
        let ghost dv = self.deep_view();
        let n = self.entries.len();
        for i in 0..n
            invariant
                n == self.entries.len(),
                dv == self.deep_view(),
                dv.wf(),
                forall|j: int| 0 <= j < i ==> (#[trigger] dv.entries[j]).chain_ok(),
        {
            assert((#[trigger] dv.entries[i as int]).wf());
            let ok = match self.entries[i].verify_history() {
                Ok(b) => b,
                Err(e) => {
                    return Err(e);
                },
            };
            if !ok {
                return Ok(false);
            }
        }
        Ok(true)
    }

    /// Rotates the password of the entry named `name`, stamped with the
    /// current time. Returns whether such an entry existed; when none does,
    /// or on a fault, the vault is unchanged.
    pub fn change_password(&mut self, name: &String, author: &str, new_secret: &str) -> (r: Result<
        bool,
        VaultError,
    >)
        requires
            old(self).deep_view().wf(),
        ensures
            final(self).deep_view().wf(),
            final(self).deep_view().owner == old(self).deep_view().owner,
            r == Ok::<bool, VaultError>(false) ==> final(self).deep_view() == old(
                self,
            ).deep_view() && !has_name(old(self).deep_view().entries, name@),
            r == Ok::<bool, VaultError>(true) ==> exists|i: int, t: u64|
                {
                    &&& 0 <= i < old(self).deep_view().entries.len()
                    &&& old(self).deep_view().entries[i].name == name@
                    &&& t <= MAX_TIMESTAMP
                    &&& final(self).deep_view().entries == #[trigger] old(
                        self,
                    ).deep_view().entries.update(
                        i,
                        spec_password_change(
                            old(self).deep_view().entries[i],
                            author@,
                            new_secret@,
                            t,
                        ),
                    )
                },
            r matches Err(e) ==> (e == VaultError::CipherError || e == VaultError::ClockError)
                && final(self).deep_view() == old(self).deep_view(),
    {
        let ghost od = old(self).deep_view();
        let i = match find_index(&self.entries, name) {
            Some(i) => i,
            None => {
                return Ok(false);
            },
        };
        let mut e = self.entries.remove(i);
        proof {
            assert(od.entries[i as int].wf());
            assert(e.deep_view() == od.entries[i as int]);
        }
        let ghost t0 = self.deep_view();
        match e.add_password_change(author, new_secret) {
            Ok(()) => {
                let ghost changed = e.deep_view();
                self.entries.insert(i, e);
                proof {
                    let t = choose|t: u64|
                        t <= MAX_TIMESTAMP && changed == spec_password_change(
                            od.entries[i as int],
                            author@,
                            new_secret@,
                            t,
                        );
                    assert(self.deep_view().entries =~~= od.entries.update(i as int, changed));
                    lemma_wf_after_password_change(od, i as int, changed);
                    assert(0 <= i < od.entries.len() && od.entries[i as int].name == name@ && t
                        <= MAX_TIMESTAMP && self.deep_view().entries == od.entries.update(
                        i as int,
                        spec_password_change(od.entries[i as int], author@, new_secret@, t),
                    ));
                }
                Ok(true)
            },
            Err(err) => {
                self.entries.insert(i, e);
                proof {
                    assert(self.deep_view() =~~= od);
                }
                Err(err)
            },
        }
    }
}

/// Rotating one entry's password keeps the vault well-formed: the entry
/// keeps its name and stays well-formed, and no other entry moves.
proof fn lemma_wf_after_password_change(v: VaultView, i: int, changed: EntryView)
    requires
        v.wf(),
        0 <= i < v.entries.len(),
        changed.name == v.entries[i].name,
        changed.wf(),
    ensures
        (VaultView { owner: v.owner, entries: v.entries.update(i, changed) }).wf(),
{
    let nv = VaultView { owner: v.owner, entries: v.entries.update(i, changed) };
    assert forall|a: int, b: int| 0 <= a < b < nv.entries.len() implies (#[trigger] nv.entries[a]).name
        != (#[trigger] nv.entries[b]).name by {
        assert(v.entries[a].name != v.entries[b].name);
    }
}

/// Replacing an entry with a fresh one of the same name keeps the vault
/// well-formed.
proof fn lemma_wf_after_update(v: VaultView, i: int, ent: EntryView)
    requires
        v.wf(),
        0 <= i < v.entries.len(),
        v.entries[i].name == ent.name,
        ent.wf(),
    ensures
        (VaultView { owner: v.owner, entries: v.entries.update(i, ent) }).wf(),
{
    let nv = VaultView { owner: v.owner, entries: v.entries.update(i, ent) };
    assert forall|a: int, b: int| 0 <= a < b < nv.entries.len() implies (#[trigger] nv.entries[a]).name
        != (#[trigger] nv.entries[b]).name by {
        assert(v.entries[a].name != v.entries[b].name);
    }
}

/// Appending an entry under a new name keeps the vault well-formed.
proof fn lemma_wf_after_push(v: VaultView, ent: EntryView)
    requires
        v.wf(),
        !has_name(v.entries, ent.name),
        ent.wf(),
    ensures
        (VaultView { owner: v.owner, entries: v.entries.push(ent) }).wf(),
{
    let nv = VaultView { owner: v.owner, entries: v.entries.push(ent) };
    assert forall|a: int, b: int| 0 <= a < b < nv.entries.len() implies (#[trigger] nv.entries[a]).name
        != (#[trigger] nv.entries[b]).name by {
        if b < v.entries.len() {
            assert(v.entries[a].name != v.entries[b].name);
        } else {
            assert(v.entries[a] == nv.entries[a]);
        }
    }
}

/// In a sound chain the parent links walk the history in storage order:
/// every record names the next-older record, and the oldest names none, so
/// the links form a path that terminates at a record with no parent.
pub proof fn lemma_chain_parent_links(e: EntryView)
    requires
        e.chain_ok(),
    ensures
        forall|i: int|
            0 <= i < e.history.len() - 1 ==> (#[trigger] e.history[i]).parent_id == Some(
                e.history[i + 1].id,
            ),
        e.history.len() > 0 ==> e.history[e.history.len() - 1].parent_id is None,
{
    if e.history.len() > 0 {
        assert(record_linked(e.secret, e.history, e.history.len() - 1));
    }
    assert forall|i: int| 0 <= i < e.history.len() - 1 implies (#[trigger] e.history[i]).parent_id
        == Some(e.history[i + 1].id) by {
        assert(record_linked(e.secret, e.history, i));
    }
}

/// A password change of a sound entry keeps its hash chain sound: the new
/// record hashes the change and names the old head as parent, and every old
/// record keeps its place one index later.
pub proof fn lemma_password_change_chain(
    e: EntryView,
    author: Seq<char>,
    new_secret: Seq<char>,
    changed_at: u64,
)
    requires
        e.chain_ok(),
    ensures
        spec_password_change(e, author, new_secret, changed_at).chain_ok(),
{
    let nd = spec_password_change(e, author, new_secret, changed_at);
    let h = nd.history;
    assert forall|i: int| 0 <= i < h.len() implies #[trigger] record_linked(nd.secret, h, i) by {
        if i == 0 {
            assert(chain_parent(h, 0) == head_id(e.history));
            assert(chain_new_secret(nd.secret, h, 0) == new_secret);
        } else {
            assert(record_linked(e.secret, e.history, i - 1));
            assert(h[i] == e.history[i - 1]);
            assert(chain_parent(h, i) == chain_parent(e.history, i - 1));
            if i == 1 {
                assert(chain_new_secret(nd.secret, h, 1) == h[0].previous_secret);
                assert(h[0].previous_secret == e.secret);
                assert(chain_new_secret(e.secret, e.history, 0) == e.secret);
            } else {
                assert(chain_new_secret(nd.secret, h, i) == h[i - 1].previous_secret);
                assert(h[i - 1] == e.history[i - 2]);
            }
        }
    }
}

} // verus!
