//! Binary layout of the decrypted vault model.
//!
//! The envelope's payload is exactly this encoding of `{owner, entries}`,
//! entries and history included. Decoding is strict: it consumes the whole
//! payload, enforces the timestamp range, the consistency of the
//! last-modified time and the uniqueness of entry names, and any failure
//! invalidates the whole vault.
use vstd::prelude::*;

verus! {

use vstd::utf8::encode_utf8;
use crate::bytefmt::{
    enc_u64, enc_str, enc_opt_str, dec_u64, dec_str, dec_opt_str, write_u64, write_str,
    write_opt_str, read_u64, read_str, read_opt_str, lemma_window_split, lemma_dec_enc_u64,
    lemma_dec_enc_str, lemma_dec_enc_opt_str,
};
use crate::clock::MAX_TIMESTAMP;
use crate::model::{
    ChangeRecord, Entry, Vault, RecordView, EntryView, VaultView, names_unique, tags_unique,
};

// ---------------------------------------------------------------------------
// Length bounds under which a value is encodable
// ---------------------------------------------------------------------------

pub open spec fn str_len_ok(s: Seq<char>) -> bool {
    encode_utf8(s).len() <= u64::MAX
}

pub open spec fn opt_str_len_ok(o: Option<Seq<char>>) -> bool {
    match o {
        None => true,
        Some(s) => str_len_ok(s),
    }
}

pub open spec fn record_lens_ok(r: RecordView) -> bool {
    &&& str_len_ok(r.id)
    &&& str_len_ok(r.author)
    &&& str_len_ok(r.previous_secret)
    &&& opt_str_len_ok(r.parent_id)
}

pub open spec fn entry_lens_ok(e: EntryView) -> bool {
    &&& str_len_ok(e.name)
    &&& str_len_ok(e.secret)
    &&& opt_str_len_ok(e.comment)
    &&& opt_str_len_ok(e.user_hint)
    &&& opt_str_len_ok(e.uri)
    &&& e.tags.len() <= u64::MAX
    &&& forall|i: int| 0 <= i < e.tags.len() ==> str_len_ok(#[trigger] e.tags[i])
    &&& e.history.len() <= u64::MAX
    &&& forall|i: int| 0 <= i < e.history.len() ==> record_lens_ok(#[trigger] e.history[i])
}

pub open spec fn vault_lens_ok(v: VaultView) -> bool {
    &&& str_len_ok(v.owner)
    &&& v.entries.len() <= u64::MAX
    &&& forall|i: int| 0 <= i < v.entries.len() ==> entry_lens_ok(#[trigger] v.entries[i])
}

// ---------------------------------------------------------------------------
// Specification encoders
// ---------------------------------------------------------------------------

pub open spec fn enc_record(r: RecordView) -> Seq<u8> {
    enc_str(r.id) + (enc_str(r.author) + (enc_u64(r.changed_at) + (enc_str(r.previous_secret)
        + enc_opt_str(r.parent_id))))
}

pub open spec fn enc_str_items(ss: Seq<Seq<char>>) -> Seq<u8>
    decreases ss.len(),
{
    if ss.len() == 0 {
        Seq::empty()
    } else {
        enc_str(ss[0]) + enc_str_items(ss.drop_first())
    }
}

pub open spec fn enc_record_items(rs: Seq<RecordView>) -> Seq<u8>
    decreases rs.len(),
{
    if rs.len() == 0 {
        Seq::empty()
    } else {
        enc_record(rs[0]) + enc_record_items(rs.drop_first())
    }
}

pub open spec fn enc_entry(e: EntryView) -> Seq<u8> {
    enc_str(e.name) + (enc_str(e.secret) + (enc_opt_str(e.comment) + (enc_opt_str(e.user_hint)
        + (enc_opt_str(e.uri) + (enc_u64(e.tags.len() as u64) + (enc_str_items(e.tags) + (enc_u64(
        e.created_at,
    ) + (enc_u64(e.last_modified_at) + (enc_u64(e.history.len() as u64) + enc_record_items(
        e.history,
    ))))))))))
}

pub open spec fn enc_entry_items(es: Seq<EntryView>) -> Seq<u8>
    decreases es.len(),
{
    if es.len() == 0 {
        Seq::empty()
    } else {
        enc_entry(es[0]) + enc_entry_items(es.drop_first())
    }
}

/// The payload layout: owner, then the entries with a leading count.
pub open spec fn enc_vault(v: VaultView) -> Seq<u8> {
    enc_str(v.owner) + (enc_u64(v.entries.len() as u64) + enc_entry_items(v.entries))
}

// ---------------------------------------------------------------------------
// Specification decoders
// ---------------------------------------------------------------------------

pub open spec fn dec_record(b: Seq<u8>, pos: int) -> Option<(RecordView, int)> {
    match dec_str(b, pos) {
        None => None,
        Some((id, p1)) => match dec_str(b, p1) {
            None => None,
            Some((author, p2)) => match dec_u64(b, p2) {
                None => None,
                Some((changed_at, p3)) => if changed_at <= MAX_TIMESTAMP {
                    match dec_str(b, p3) {
                        None => None,
                        Some((previous_secret, p4)) => match dec_opt_str(b, p4) {
                            None => None,
                            Some((parent_id, p5)) => Some(
                                (
                                    RecordView {
                                        id,
                                        author,
                                        changed_at,
                                        previous_secret,
                                        parent_id,
                                    },
                                    p5,
                                ),
                            ),
                        },
                    }
                } else {
                    None
                },
            },
        },
    }
}

pub open spec fn dec_str_items(b: Seq<u8>, pos: int, n: nat) -> Option<(Seq<Seq<char>>, int)>
    decreases n,
{
    if n == 0 {
        Some((Seq::empty(), pos))
    } else {
        match dec_str(b, pos) {
            None => None,
            Some((s, p)) => match dec_str_items(b, p, (n - 1) as nat) {
                None => None,
                Some((rest, q)) => Some((seq![s] + rest, q)),
            },
        }
    }
}

pub open spec fn dec_record_items(b: Seq<u8>, pos: int, n: nat) -> Option<(Seq<RecordView>, int)>
    decreases n,
{
    if n == 0 {
        Some((Seq::empty(), pos))
    } else {
        match dec_record(b, pos) {
            None => None,
            Some((r, p)) => match dec_record_items(b, p, (n - 1) as nat) {
                None => None,
                Some((rest, q)) => Some((seq![r] + rest, q)),
            },
        }
    }
}

pub open spec fn dec_entry(b: Seq<u8>, pos: int) -> Option<(EntryView, int)> {
    match dec_str(b, pos) {
        None => None,
        Some((name, p1)) => match dec_str(b, p1) {
            None => None,
            Some((secret, p2)) => match dec_opt_str(b, p2) {
                None => None,
                Some((comment, p3)) => match dec_opt_str(b, p3) {
                    None => None,
                    Some((user_hint, p4)) => match dec_opt_str(b, p4) {
                        None => None,
                        Some((uri, p5)) => match dec_u64(b, p5) {
                            None => None,
                            Some((n_tags, p6)) => match dec_str_items(b, p6, n_tags as nat) {
                                None => None,
                                Some((tags, p7)) => match dec_u64(b, p7) {
                                    None => None,
                                    Some((created_at, p8)) => match dec_u64(b, p8) {
                                        None => None,
                                        Some((last_modified_at, p9)) => match dec_u64(b, p9) {
                                            None => None,
                                            Some((n_hist, p10)) => match dec_record_items(
                                                b,
                                                p10,
                                                n_hist as nat,
                                            ) {
                                                None => None,
                                                Some((history, p11)) => {
                                                    let e = EntryView {
                                                        name,
                                                        secret,
                                                        comment,
                                                        user_hint,
                                                        uri,
                                                        tags,
                                                        created_at,
                                                        last_modified_at,
                                                        history,
                                                    };
                                                    if e.wf() {
                                                        Some((e, p11))
                                                    } else {
                                                        None
                                                    }
                                                },
                                            },
                                        },
                                    },
                                },
                            },
                        },
                    },
                },
            },
        },
    }
}

pub open spec fn dec_entry_items(b: Seq<u8>, pos: int, n: nat) -> Option<(Seq<EntryView>, int)>
    decreases n,
{
    if n == 0 {
        Some((Seq::empty(), pos))
    } else {
        match dec_entry(b, pos) {
            None => None,
            Some((e, p)) => match dec_entry_items(b, p, (n - 1) as nat) {
                None => None,
                Some((rest, q)) => Some((seq![e] + rest, q)),
            },
        }
    }
}

/// The structural reading of a payload; consumes the whole buffer and
/// enforces unique entry names.
pub open spec fn spec_dec_vault(b: Seq<u8>) -> Option<VaultView> {
    match dec_str(b, 0) {
        None => None,
        Some((owner, p1)) => match dec_u64(b, p1) {
            None => None,
            Some((n, p2)) => match dec_entry_items(b, p2, n as nat) {
                None => None,
                Some((entries, p3)) => if p3 == b.len() && names_unique(entries) {
                    Some(VaultView { owner, entries })
                } else {
                    None
                },
            },
        },
    }
}

// ---------------------------------------------------------------------------
// Round-trip lemmas
// ---------------------------------------------------------------------------

pub proof fn lemma_dec_enc_record(b: Seq<u8>, pos: int, r: RecordView)
    requires
        0 <= pos,
        record_lens_ok(r),
        r.changed_at <= MAX_TIMESTAMP,
        pos + enc_record(r).len() <= b.len(),
        b.subrange(pos, pos + enc_record(r).len()) == enc_record(r),
    ensures
        dec_record(b, pos) == Some((r, pos + enc_record(r).len())),
{
    let r4 = enc_opt_str(r.parent_id);
    let r3 = enc_str(r.previous_secret) + r4;
    let r2 = enc_u64(r.changed_at) + r3;
    let r1 = enc_str(r.author) + r2;
    let p0 = pos;
    let p1 = p0 + enc_str(r.id).len();
    let p2 = p1 + enc_str(r.author).len();
    let p3 = p2 + 8;
    let p4 = p3 + enc_str(r.previous_secret).len();
    lemma_window_split(b, p0, enc_str(r.id), r1);
    lemma_dec_enc_str(b, p0, r.id);
    lemma_window_split(b, p1, enc_str(r.author), r2);
    lemma_dec_enc_str(b, p1, r.author);
    lemma_window_split(b, p2, enc_u64(r.changed_at), r3);
    lemma_dec_enc_u64(b, p2, r.changed_at);
    lemma_window_split(b, p3, enc_str(r.previous_secret), r4);
    lemma_dec_enc_str(b, p3, r.previous_secret);
    assert(r4.subrange(0, r4.len() as int) =~= r4);
    lemma_dec_enc_opt_str(b, p4, r.parent_id);
}

#[verifier::rlimit(50)]
#[verifier::spinoff_prover]
pub proof fn lemma_dec_enc_str_items(b: Seq<u8>, pos: int, ss: Seq<Seq<char>>)
    requires
        0 <= pos,
        forall|i: int| 0 <= i < ss.len() ==> str_len_ok(#[trigger] ss[i]),
        pos + enc_str_items(ss).len() <= b.len(),
        b.subrange(pos, pos + enc_str_items(ss).len()) == enc_str_items(ss),
    ensures
        dec_str_items(b, pos, ss.len()) == Some((ss, pos + enc_str_items(ss).len())),
    decreases ss.len(),
{
    if ss.len() == 0 {
        assert(ss =~= Seq::<Seq<char>>::empty());
    } else {
        let rest = ss.drop_first();
        assert(enc_str_items(ss) == enc_str(ss[0]) + enc_str_items(rest));
        lemma_window_split(b, pos, enc_str(ss[0]), enc_str_items(rest));
        lemma_dec_enc_str(b, pos, ss[0]);
        let p = pos + enc_str(ss[0]).len();
        assert(forall|i: int| 0 <= i < rest.len() ==> #[trigger] rest[i] == ss[i + 1]);
        lemma_dec_enc_str_items(b, p, rest);
        assert(seq![ss[0]] + rest =~= ss);
    }
}

#[verifier::rlimit(50)]
#[verifier::spinoff_prover]
pub proof fn lemma_dec_enc_record_items(b: Seq<u8>, pos: int, rs: Seq<RecordView>)
    requires
        0 <= pos,
        forall|i: int| 0 <= i < rs.len() ==> record_lens_ok(#[trigger] rs[i]),
        forall|i: int| 0 <= i < rs.len() ==> (#[trigger] rs[i]).changed_at <= MAX_TIMESTAMP,
        pos + enc_record_items(rs).len() <= b.len(),
        b.subrange(pos, pos + enc_record_items(rs).len()) == enc_record_items(rs),
    ensures
        dec_record_items(b, pos, rs.len()) == Some((rs, pos + enc_record_items(rs).len())),
    decreases rs.len(),
{
    if rs.len() == 0 {
        assert(rs =~= Seq::<RecordView>::empty());
    } else {
        let rest = rs.drop_first();
        assert(enc_record_items(rs) == enc_record(rs[0]) + enc_record_items(rest));
        lemma_window_split(b, pos, enc_record(rs[0]), enc_record_items(rest));
        lemma_dec_enc_record(b, pos, rs[0]);
        let p = pos + enc_record(rs[0]).len();
        assert(forall|i: int| 0 <= i < rest.len() ==> #[trigger] rest[i] == rs[i + 1]);
        lemma_dec_enc_record_items(b, p, rest);
        assert(seq![rs[0]] + rest =~= rs);
    }
}

#[verifier::rlimit(100)]
#[verifier::spinoff_prover]
pub proof fn lemma_dec_enc_entry(b: Seq<u8>, pos: int, e: EntryView)
    requires
        0 <= pos,
        entry_lens_ok(e),
        e.wf(),
        pos + enc_entry(e).len() <= b.len(),
        b.subrange(pos, pos + enc_entry(e).len()) == enc_entry(e),
    ensures
        dec_entry(b, pos) == Some((e, pos + enc_entry(e).len())),
{
    let n_tags = e.tags.len() as u64;
    let n_hist = e.history.len() as u64;
    let r9 = enc_u64(n_hist) + enc_record_items(e.history);
    let r8 = enc_u64(e.last_modified_at) + r9;
    let r7 = enc_u64(e.created_at) + r8;
    let r6 = enc_str_items(e.tags) + r7;
    let r5 = enc_u64(n_tags) + r6;
    let r4 = enc_opt_str(e.uri) + r5;
    let r3 = enc_opt_str(e.user_hint) + r4;
    let r2 = enc_opt_str(e.comment) + r3;
    let r1 = enc_str(e.secret) + r2;
    let p0 = pos;
    let p1 = p0 + enc_str(e.name).len();
    let p2 = p1 + enc_str(e.secret).len();
    let p3 = p2 + enc_opt_str(e.comment).len();
    let p4 = p3 + enc_opt_str(e.user_hint).len();
    let p5 = p4 + enc_opt_str(e.uri).len();
    let p6 = p5 + 8;
    let p7 = p6 + enc_str_items(e.tags).len();
    let p8 = p7 + 8;
    let p9 = p8 + 8;
    let p10 = p9 + 8;
    lemma_window_split(b, p0, enc_str(e.name), r1);
    lemma_dec_enc_str(b, p0, e.name);
    lemma_window_split(b, p1, enc_str(e.secret), r2);
    lemma_dec_enc_str(b, p1, e.secret);
    lemma_window_split(b, p2, enc_opt_str(e.comment), r3);
    lemma_dec_enc_opt_str(b, p2, e.comment);
    lemma_window_split(b, p3, enc_opt_str(e.user_hint), r4);
    lemma_dec_enc_opt_str(b, p3, e.user_hint);
    lemma_window_split(b, p4, enc_opt_str(e.uri), r5);
    lemma_dec_enc_opt_str(b, p4, e.uri);
    lemma_window_split(b, p5, enc_u64(n_tags), r6);
    lemma_dec_enc_u64(b, p5, n_tags);
    lemma_window_split(b, p6, enc_str_items(e.tags), r7);
    lemma_dec_enc_str_items(b, p6, e.tags);
    lemma_window_split(b, p7, enc_u64(e.created_at), r8);
    lemma_dec_enc_u64(b, p7, e.created_at);
    lemma_window_split(b, p8, enc_u64(e.last_modified_at), r9);
    lemma_dec_enc_u64(b, p8, e.last_modified_at);
    lemma_window_split(b, p9, enc_u64(n_hist), enc_record_items(e.history));
    lemma_dec_enc_u64(b, p9, n_hist);
    assert(enc_record_items(e.history).subrange(
        0,
        enc_record_items(e.history).len() as int,
    ) =~= enc_record_items(e.history));
    lemma_dec_enc_record_items(b, p10, e.history);
}

#[verifier::rlimit(50)]
#[verifier::spinoff_prover]
pub proof fn lemma_dec_enc_entry_items(b: Seq<u8>, pos: int, es: Seq<EntryView>)
    requires
        0 <= pos,
        forall|i: int| 0 <= i < es.len() ==> entry_lens_ok(#[trigger] es[i]),
        forall|i: int| 0 <= i < es.len() ==> (#[trigger] es[i]).wf(),
        pos + enc_entry_items(es).len() <= b.len(),
        b.subrange(pos, pos + enc_entry_items(es).len()) == enc_entry_items(es),
    ensures
        dec_entry_items(b, pos, es.len()) == Some((es, pos + enc_entry_items(es).len())),
    decreases es.len(),
{
    if es.len() == 0 {
        assert(es =~= Seq::<EntryView>::empty());
    } else {
        let rest = es.drop_first();
        assert(enc_entry_items(es) == enc_entry(es[0]) + enc_entry_items(rest));
        lemma_window_split(b, pos, enc_entry(es[0]), enc_entry_items(rest));
        lemma_dec_enc_entry(b, pos, es[0]);
        let p = pos + enc_entry(es[0]).len();
        assert(forall|i: int| 0 <= i < rest.len() ==> #[trigger] rest[i] == es[i + 1]);
        lemma_dec_enc_entry_items(b, p, rest);
        assert(seq![es[0]] + rest =~= es);
    }
}

/// Decoding an encoded well-formed vault yields the vault back.
#[verifier::rlimit(50)]
#[verifier::spinoff_prover]
pub proof fn lemma_vault_round_trip(v: VaultView)
    requires
        v.wf(),
        vault_lens_ok(v),
    ensures
        spec_dec_vault(enc_vault(v)) == Some(v),
{
    let b = enc_vault(v);
    let n = v.entries.len() as u64;
    let r1 = enc_u64(n) + enc_entry_items(v.entries);
    let p1 = enc_str(v.owner).len() as int;
    let p2 = p1 + 8;
    assert(b.subrange(0, b.len() as int) =~= b);
    lemma_window_split(b, 0, enc_str(v.owner), r1);
    lemma_dec_enc_str(b, 0, v.owner);
    lemma_window_split(b, p1, enc_u64(n), enc_entry_items(v.entries));
    lemma_dec_enc_u64(b, p1, n);
    assert(enc_entry_items(v.entries).subrange(
        0,
        enc_entry_items(v.entries).len() as int,
    ) =~= enc_entry_items(v.entries));
    lemma_dec_enc_entry_items(b, p2, v.entries);
}

// ---------------------------------------------------------------------------
// Executable encoders
// ---------------------------------------------------------------------------

// Reassociation facts over abstract byte strings, kept separate so the
// heavyweight encoder definitions stay folded while the algebra is done.
proof fn seq_assoc(a: Seq<u8>, b: Seq<u8>, c: Seq<u8>)
    ensures
        (a + b) + c == a + (b + c),
{
    assert((a + b) + c =~= a + (b + c));
}

proof fn seq_empty_left(a: Seq<u8>)
    ensures
        Seq::<u8>::empty() + a == a,
{
    assert(Seq::<u8>::empty() + a =~= a);
}

proof fn seq_empty_right(a: Seq<u8>)
    ensures
        a + Seq::<u8>::empty() == a,
{
    assert(a + Seq::<u8>::empty() =~= a);
}

#[verifier::spinoff_prover]
proof fn seq_cat12(
    l: Seq<u8>,
    a: Seq<u8>,
    b: Seq<u8>,
    c: Seq<u8>,
    d: Seq<u8>,
    e: Seq<u8>,
    f: Seq<u8>,
    g: Seq<u8>,
    h: Seq<u8>,
    i: Seq<u8>,
    j: Seq<u8>,
    k: Seq<u8>,
)
    ensures
        ((((((((((l + a) + b) + c) + d) + e) + f) + g) + h) + i) + j) + k == l + (a + (b + (c + (d
            + (e + (f + (g + (h + (i + (j + k)))))))))),
{
    assert(((((((((((l + a) + b) + c) + d) + e) + f) + g) + h) + i) + j) + k =~= l + (a + (b + (c
        + (d + (e + (f + (g + (h + (i + (j + k)))))))))));
}

#[verifier::spinoff_prover]
proof fn lemma_enc_str_items_push(ss: Seq<Seq<char>>, s: Seq<char>)
    ensures
        enc_str_items(ss.push(s)) == enc_str_items(ss) + enc_str(s),
    decreases ss.len(),
{
    let ps = ss.push(s);
    if ss.len() == 0 {
        assert(ps.drop_first() =~= Seq::<Seq<char>>::empty());
        assert(ps[0] == s);
        assert(enc_str_items(ps) == enc_str(ps[0]) + enc_str_items(ps.drop_first()));
        assert(enc_str_items(ss) == Seq::<u8>::empty());
        seq_empty_right(enc_str(s));
        seq_empty_left(enc_str(s));
    } else {
        assert(ps.drop_first() =~= ss.drop_first().push(s));
        assert(ps[0] == ss[0]);
        assert(enc_str_items(ps) == enc_str(ps[0]) + enc_str_items(ps.drop_first()));
        assert(enc_str_items(ss) == enc_str(ss[0]) + enc_str_items(ss.drop_first()));
        lemma_enc_str_items_push(ss.drop_first(), s);
        seq_assoc(enc_str(ss[0]), enc_str_items(ss.drop_first()), enc_str(s));
    }
}

#[verifier::spinoff_prover]
proof fn lemma_enc_record_items_push(rs: Seq<RecordView>, r: RecordView)
    ensures
        enc_record_items(rs.push(r)) == enc_record_items(rs) + enc_record(r),
    decreases rs.len(),
{
    let ps = rs.push(r);
    if rs.len() == 0 {
        assert(ps.drop_first() =~= Seq::<RecordView>::empty());
        assert(ps[0] == r);
        assert(enc_record_items(ps) == enc_record(ps[0]) + enc_record_items(ps.drop_first()));
        assert(enc_record_items(rs) == Seq::<u8>::empty());
        seq_empty_right(enc_record(r));
        seq_empty_left(enc_record(r));
    } else {
        assert(ps.drop_first() =~= rs.drop_first().push(r));
        assert(ps[0] == rs[0]);
        assert(enc_record_items(ps) == enc_record(ps[0]) + enc_record_items(ps.drop_first()));
        assert(enc_record_items(rs) == enc_record(rs[0]) + enc_record_items(rs.drop_first()));
        lemma_enc_record_items_push(rs.drop_first(), r);
        seq_assoc(enc_record(rs[0]), enc_record_items(rs.drop_first()), enc_record(r));
    }
}

#[verifier::spinoff_prover]
proof fn lemma_enc_entry_items_push(es: Seq<EntryView>, e: EntryView)
    ensures
        enc_entry_items(es.push(e)) == enc_entry_items(es) + enc_entry(e),
    decreases es.len(),
{
    let ps = es.push(e);
    if es.len() == 0 {
        assert(ps.drop_first() =~= Seq::<EntryView>::empty());
        assert(ps[0] == e);
        assert(enc_entry_items(ps) == enc_entry(ps[0]) + enc_entry_items(ps.drop_first()));
        assert(enc_entry_items(es) == Seq::<u8>::empty());
        seq_empty_right(enc_entry(e));
        seq_empty_left(enc_entry(e));
    } else {
        assert(ps.drop_first() =~= es.drop_first().push(e));
        assert(ps[0] == es[0]);
        assert(enc_entry_items(ps) == enc_entry(ps[0]) + enc_entry_items(ps.drop_first()));
        assert(enc_entry_items(es) == enc_entry(es[0]) + enc_entry_items(es.drop_first()));
        lemma_enc_entry_items_push(es.drop_first(), e);
        seq_assoc(enc_entry(es[0]), enc_entry_items(es.drop_first()), enc_entry(e));
    }
}

/// Appends the record's encoding.
pub fn encode_record_into(out: &mut Vec<u8>, r: &ChangeRecord)
    ensures
        final(out)@ == old(out)@ + enc_record(r.deep_view()),
        record_lens_ok(r.deep_view()),
{
    write_str(out, r.id.as_str());
    write_str(out, r.author.as_str());
    write_u64(out, r.changed_at);
    write_str(out, r.previous_secret.as_str());
    write_opt_str(out, &r.parent_id);
    proof {
        let dv = r.deep_view();
        let l = old(out)@;
        let a = enc_str(dv.id);
        let b = enc_str(dv.author);
        let c = enc_u64(dv.changed_at);
        let d = enc_str(dv.previous_secret);
        let e = enc_opt_str(dv.parent_id);
        seq_assoc(c, d, e);
        seq_assoc(b, c, d + e);
        seq_assoc(a, b, c + (d + e));
        seq_assoc(l + a, b, c);
        seq_assoc(l + a + b, c, d);
        seq_assoc(l + a + b + c, d, e);
        seq_assoc(l + a, b, c + (d + e));
        seq_assoc(l, a, b + (c + (d + e)));
        assert(out@ == l + a + b + c + d + e);
        assert(l + a + b + c + d + e == l + (a + (b + (c + (d + e)))));
    }
}

/// Appends the entry's encoding.
#[verifier::rlimit(50)]
#[verifier::spinoff_prover]
pub fn encode_entry_into(out: &mut Vec<u8>, e: &Entry)
    ensures
        final(out)@ == old(out)@ + enc_entry(e.deep_view()),
        entry_lens_ok(e.deep_view()),
{
    let ghost dv = e.deep_view();
    write_str(out, e.name.as_str());
    write_str(out, e.secret.as_str());
    write_opt_str(out, &e.comment);
    write_opt_str(out, &e.user_hint);
    write_opt_str(out, &e.uri);
    let n_tags = e.tags.len();
    write_u64(out, n_tags as u64);
    let ghost base_tags = out@;
    for i in 0..n_tags
        invariant
            n_tags == e.tags.len(),
            dv == e.deep_view(),
            out@ == base_tags + enc_str_items(dv.tags.take(i as int)),
            forall|j: int| 0 <= j < i ==> str_len_ok(#[trigger] dv.tags[j]),
    {
        write_str(out, e.tags[i].as_str());
        proof {
            assert(dv.tags.take(i + 1) =~= dv.tags.take(i as int).push(dv.tags[i as int]));
            lemma_enc_str_items_push(dv.tags.take(i as int), dv.tags[i as int]);
            seq_assoc(base_tags, enc_str_items(dv.tags.take(i as int)), enc_str(dv.tags[i as int]));
        }
    }
    assert(dv.tags.take(n_tags as int) =~= dv.tags);
    write_u64(out, e.created_at);
    write_u64(out, e.last_modified_at);
    let n_hist = e.history.len();
    write_u64(out, n_hist as u64);
    let ghost base_hist = out@;
    for i in 0..n_hist
        invariant
            n_hist == e.history.len(),
            dv == e.deep_view(),
            out@ == base_hist + enc_record_items(dv.history.take(i as int)),
            forall|j: int| 0 <= j < i ==> record_lens_ok(#[trigger] dv.history[j]),
    {
        encode_record_into(out, &e.history[i]);
        proof {
            assert(dv.history.take(i + 1) =~= dv.history.take(i as int).push(
                dv.history[i as int],
            ));
            lemma_enc_record_items_push(dv.history.take(i as int), dv.history[i as int]);
            seq_assoc(
                base_hist,
                enc_record_items(dv.history.take(i as int)),
                enc_record(dv.history[i as int]),
            );
        }
    }
    assert(dv.history.take(n_hist as int) =~= dv.history);
    proof {
        let l = old(out)@;
        let va = enc_str(dv.name);
        let vb = enc_str(dv.secret);
        let vc = enc_opt_str(dv.comment);
        let vd = enc_opt_str(dv.user_hint);
        let ve = enc_opt_str(dv.uri);
        let vf = enc_u64(dv.tags.len() as u64);
        let vg = enc_str_items(dv.tags);
        let vh = enc_u64(dv.created_at);
        let vi = enc_u64(dv.last_modified_at);
        let vj = enc_u64(dv.history.len() as u64);
        let vk = enc_record_items(dv.history);
        assert(out@ == ((((((((((l + va) + vb) + vc) + vd) + ve) + vf) + vg) + vh) + vi) + vj)
            + vk);
        seq_cat12(l, va, vb, vc, vd, ve, vf, vg, vh, vi, vj, vk);
        assert(enc_entry(dv) == va + (vb + (vc + (vd + (ve + (vf + (vg + (vh + (vi + (vj
            + vk))))))))));
    }
}

/// Serializes the whole vault into payload bytes.
#[verifier::spinoff_prover]
pub fn encode_vault(v: &Vault) -> (r: Vec<u8>)
    ensures
        r@ == enc_vault(v.deep_view()),
        vault_lens_ok(v.deep_view()),
{
    let ghost dv = v.deep_view();
    let mut out: Vec<u8> = Vec::new();
    write_str(&mut out, v.owner.as_str());
    let n = v.entries.len();
    write_u64(&mut out, n as u64);
    let ghost base = out@;
    for i in 0..n
        invariant
            n == v.entries.len(),
            dv == v.deep_view(),
            out@ == base + enc_entry_items(dv.entries.take(i as int)),
            forall|j: int| 0 <= j < i ==> entry_lens_ok(#[trigger] dv.entries[j]),
    {
        encode_entry_into(&mut out, &v.entries[i]);
        proof {
            assert(dv.entries.take(i + 1) =~= dv.entries.take(i as int).push(
                dv.entries[i as int],
            ));
            lemma_enc_entry_items_push(dv.entries.take(i as int), dv.entries[i as int]);
            seq_assoc(
                base,
                enc_entry_items(dv.entries.take(i as int)),
                enc_entry(dv.entries[i as int]),
            );
        }
    }
    assert(dv.entries.take(n as int) =~= dv.entries);
    proof {
        let va = enc_str(dv.owner);
        let vb = enc_u64(dv.entries.len() as u64);
        let vc = enc_entry_items(dv.entries);
        seq_empty_left(va);
        assert(base == va + vb);
        assert(out@ == (va + vb) + vc);
        seq_assoc(va, vb, vc);
    }
    out
}

// ---------------------------------------------------------------------------
// Executable decoders
// ---------------------------------------------------------------------------

/// Reads one change record.
pub fn decode_record(b: &[u8], pos: usize) -> (r: Option<(ChangeRecord, usize)>)
    ensures
        match r {
            Some((rec, p)) => dec_record(b@, pos as int) == Some((rec.deep_view(), p as int)),
            None => dec_record(b@, pos as int) is None,
        },
{
    let (id, p1) = match read_str(b, pos) {
        Some(x) => x,
        None => {
            return None;
        },
    };
    let (author, p2) = match read_str(b, p1) {
        Some(x) => x,
        None => {
            return None;
        },
    };
    let (changed_at, p3) = match read_u64(b, p2) {
        Some(x) => x,
        None => {
            return None;
        },
    };
    if changed_at > MAX_TIMESTAMP {
        return None;
    }
    let (previous_secret, p4) = match read_str(b, p3) {
        Some(x) => x,
        None => {
            return None;
        },
    };
    let (parent_id, p5) = match read_opt_str(b, p4) {
        Some(x) => x,
        None => {
            return None;
        },
    };
    let rec = ChangeRecord { id, author, changed_at, previous_secret, parent_id };
    proof {
        assert(rec.deep_view() =~~= dec_record(b@, pos as int).unwrap().0);
    }
    Some((rec, p5))
}

/// Reads `n` length-prefixed strings.
fn decode_str_list(b: &[u8], pos: usize, n: u64) -> (r: Option<(Vec<String>, usize)>)
    ensures
        match r {
            Some((v, p)) => dec_str_items(b@, pos as int, n as nat) == Some(
                (v.deep_view(), p as int),
            ),
            None => dec_str_items(b@, pos as int, n as nat) is None,
        },
{
    let mut acc: Vec<String> = Vec::new();
    let mut cur: usize = pos;
    let mut i: u64 = 0;
    while i < n
        invariant
            i <= n,
            acc.deep_view().len() == i as nat,
            ({
                match dec_str_items(b@, cur as int, (n - i) as nat) {
                    Some((rest, q)) => dec_str_items(b@, pos as int, n as nat) == Some(
                        (acc.deep_view() + rest, q),
                    ),
                    None => dec_str_items(b@, pos as int, n as nat) is None,
                }
            }),
        decreases n - i,
    {
        let ghost rem = (n - i) as nat;
        match read_str(b, cur) {
            None => {
                proof {
                    assert(dec_str_items(b@, cur as int, rem) is None);
                }
                return None;
            },
            Some((s, p)) => {
                let ghost old_acc = acc.deep_view();
                proof {
                    match dec_str_items(b@, p as int, (rem - 1) as nat) {
                        Some((rest, q)) => {
                            assert((old_acc + seq![s@]) + rest =~= old_acc + (seq![s@] + rest));
                        },
                        None => {},
                    }
                }
                acc.push(s);
                proof {
                    assert(acc.deep_view() =~= old_acc + seq![s@]);
                }
                cur = p;
                i = i + 1;
            },
        }
    }
    proof {
        assert(acc.deep_view() + Seq::<Seq<char>>::empty() =~= acc.deep_view());
    }
    Some((acc, cur))
}

/// Reads `n` change records.
fn decode_record_list(b: &[u8], pos: usize, n: u64) -> (r: Option<(Vec<ChangeRecord>, usize)>)
    ensures
        match r {
            Some((v, p)) => dec_record_items(b@, pos as int, n as nat) == Some(
                (v.deep_view(), p as int),
            ),
            None => dec_record_items(b@, pos as int, n as nat) is None,
        },
{
    let mut acc: Vec<ChangeRecord> = Vec::new();
    let mut cur: usize = pos;
    let mut i: u64 = 0;
    while i < n
        invariant
            i <= n,
            acc.deep_view().len() == i as nat,
            ({
                match dec_record_items(b@, cur as int, (n - i) as nat) {
                    Some((rest, q)) => dec_record_items(b@, pos as int, n as nat) == Some(
                        (acc.deep_view() + rest, q),
                    ),
                    None => dec_record_items(b@, pos as int, n as nat) is None,
                }
            }),
        decreases n - i,
    {
        let ghost rem = (n - i) as nat;
        match decode_record(b, cur) {
            None => {
                proof {
                    assert(dec_record_items(b@, cur as int, rem) is None);
                }
                return None;
            },
            Some((rec, p)) => {
                let ghost old_acc = acc.deep_view();
                let ghost rv = rec.deep_view();
                proof {
                    match dec_record_items(b@, p as int, (rem - 1) as nat) {
                        Some((rest, q)) => {
                            assert((old_acc + seq![rv]) + rest =~= old_acc + (seq![rv] + rest));
                        },
                        None => {},
                    }
                }
                acc.push(rec);
                proof {
                    assert(acc.deep_view() =~= old_acc + seq![rv]);
                }
                cur = p;
                i = i + 1;
            },
        }
    }
    proof {
        assert(acc.deep_view() + Seq::<RecordView>::empty() =~= acc.deep_view());
    }
    Some((acc, cur))
}

/// Reads one entry and enforces its well-formedness.
pub fn decode_entry(b: &[u8], pos: usize) -> (r: Option<(Entry, usize)>)
    ensures
        match r {
            Some((e, p)) => dec_entry(b@, pos as int) == Some((e.deep_view(), p as int))
                && e.deep_view().wf(),
            None => dec_entry(b@, pos as int) is None,
        },
{
    let (name, p1) = match read_str(b, pos) {
        Some(x) => x,
        None => {
            return None;
        },
    };
    let (secret, p2) = match read_str(b, p1) {
        Some(x) => x,
        None => {
            return None;
        },
    };
    let (comment, p3) = match read_opt_str(b, p2) {
        Some(x) => x,
        None => {
            return None;
        },
    };
    let (user_hint, p4) = match read_opt_str(b, p3) {
        Some(x) => x,
        None => {
            return None;
        },
    };
    let (uri, p5) = match read_opt_str(b, p4) {
        Some(x) => x,
        None => {
            return None;
        },
    };
    let (n_tags, p6) = match read_u64(b, p5) {
        Some(x) => x,
        None => {
            return None;
        },
    };
    let (tags, p7) = match decode_str_list(b, p6, n_tags) {
        Some(x) => x,
        None => {
            return None;
        },
    };
    let (created_at, p8) = match read_u64(b, p7) {
        Some(x) => x,
        None => {
            return None;
        },
    };
    let (last_modified_at, p9) = match read_u64(b, p8) {
        Some(x) => x,
        None => {
            return None;
        },
    };
    let (n_hist, p10) = match read_u64(b, p9) {
        Some(x) => x,
        None => {
            return None;
        },
    };
    let (history, p11) = match decode_record_list(b, p10, n_hist) {
        Some(x) => x,
        None => {
            return None;
        },
    };
    let e = Entry {
        name,
        secret,
        comment,
        user_hint,
        uri,
        tags,
        created_at,
        last_modified_at,
        history,
    };
    let ghost ev = e.deep_view();
    proof {
        assert(ev =~~= dec_entry_candidate(b@, pos as int));
        lemma_dec_record_items_times(b@, p10 as int, n_hist as nat);
    }
    if created_at > MAX_TIMESTAMP {
        return None;
    }
    if last_modified_at > MAX_TIMESTAMP {
        return None;
    }
    let consistent: bool = if e.history.len() > 0 {
        e.last_modified_at == e.history[0].changed_at
    } else {
        e.last_modified_at == e.created_at
    };
    if !consistent {
        return None;
    }
    if !check_tags_unique(&e.tags) {
        return None;
    }
    assert(ev.wf());
    Some((e, p11))
}

/// Whether all tags of one entry differ, pairwise and case-sensitively.
fn check_tags_unique(tags: &Vec<String>) -> (b: bool)
    ensures
        b == tags_unique(tags.deep_view()),
{
    let ghost dv = tags.deep_view();
    let n = tags.len();
    for i in 0..n
        invariant
            n == tags.len(),
            dv == tags.deep_view(),
            forall|a: int, c: int| 0 <= a < c < i ==> (#[trigger] dv[a]) != (#[trigger] dv[c]),
    {
        for j in 0..i
            invariant
                n == tags.len(),
                i < n,
                dv == tags.deep_view(),
                forall|a: int, c: int| 0 <= a < c < i ==> (#[trigger] dv[a]) != (#[trigger] dv[c]),
                forall|a: int| 0 <= a < j ==> (#[trigger] dv[a]) != dv[i as int],
        {
            if tags[j].eq(&tags[i]) {
                proof {
                    assert(dv[j as int] == dv[i as int]);
                    assert(!tags_unique(dv));
                }
                return false;
            }
        }
    }
    true
}

/// The entry value a successful structural read at `pos` yields, before the
/// well-formedness check.
pub open spec fn dec_entry_candidate(b: Seq<u8>, pos: int) -> EntryView {
    let (name, p1) = dec_str(b, pos).unwrap();
    let (secret, p2) = dec_str(b, p1).unwrap();
    let (comment, p3) = dec_opt_str(b, p2).unwrap();
    let (user_hint, p4) = dec_opt_str(b, p3).unwrap();
    let (uri, p5) = dec_opt_str(b, p4).unwrap();
    let (n_tags, p6) = dec_u64(b, p5).unwrap();
    let (tags, p7) = dec_str_items(b, p6, n_tags as nat).unwrap();
    let (created_at, p8) = dec_u64(b, p7).unwrap();
    let (last_modified_at, p9) = dec_u64(b, p8).unwrap();
    let (n_hist, p10) = dec_u64(b, p9).unwrap();
    let (history, p11) = dec_record_items(b, p10, n_hist as nat).unwrap();
    EntryView { name, secret, comment, user_hint, uri, tags, created_at, last_modified_at, history }
}

/// Every record a successful `dec_record_items` yields has an in-range
/// change time.
proof fn lemma_dec_record_items_times(b: Seq<u8>, pos: int, n: nat)
    requires
        dec_record_items(b, pos, n) is Some,
    ensures
        forall|i: int|
            0 <= i < dec_record_items(b, pos, n).unwrap().0.len() ==> (#[trigger] dec_record_items(
                b,
                pos,
                n,
            ).unwrap().0[i]).changed_at <= MAX_TIMESTAMP,
    decreases n,
{
    if n == 0 {
    } else {
        let (r, p) = dec_record(b, pos).unwrap();
        lemma_dec_record_items_times(b, p, (n - 1) as nat);
        let rest = dec_record_items(b, p, (n - 1) as nat).unwrap().0;
        let whole = dec_record_items(b, pos, n).unwrap().0;
        assert(whole == seq![r] + rest);
        assert forall|i: int| 0 <= i < whole.len() implies (#[trigger] whole[i]).changed_at
            <= MAX_TIMESTAMP by {
            if i > 0 {
                assert(whole[i] == rest[i - 1]);
            }
        }
    }
}

/// Every entry a successful `dec_entry_items` yields is well-formed.
proof fn lemma_dec_entry_items_wf(b: Seq<u8>, pos: int, n: nat)
    requires
        dec_entry_items(b, pos, n) is Some,
    ensures
        forall|i: int|
            0 <= i < dec_entry_items(b, pos, n).unwrap().0.len() ==> (#[trigger] dec_entry_items(
                b,
                pos,
                n,
            ).unwrap().0[i]).wf(),
    decreases n,
{
    if n == 0 {
    } else {
        let (e, p) = dec_entry(b, pos).unwrap();
        lemma_dec_entry_items_wf(b, p, (n - 1) as nat);
        let rest = dec_entry_items(b, p, (n - 1) as nat).unwrap().0;
        let whole = dec_entry_items(b, pos, n).unwrap().0;
        assert(whole == seq![e] + rest);
        assert forall|i: int| 0 <= i < whole.len() implies (#[trigger] whole[i]).wf() by {
            if i > 0 {
                assert(whole[i] == rest[i - 1]);
            } else {
                assert(whole[0] == e);
            }
        }
    }
}

/// Reads `n` entries.
fn decode_entry_list(b: &[u8], pos: usize, n: u64) -> (r: Option<(Vec<Entry>, usize)>)
    ensures
        match r {
            Some((v, p)) => dec_entry_items(b@, pos as int, n as nat) == Some(
                (v.deep_view(), p as int),
            ),
            None => dec_entry_items(b@, pos as int, n as nat) is None,
        },
{
    let mut acc: Vec<Entry> = Vec::new();
    let mut cur: usize = pos;
    let mut i: u64 = 0;
    while i < n
        invariant
            i <= n,
            acc.deep_view().len() == i as nat,
            ({
                match dec_entry_items(b@, cur as int, (n - i) as nat) {
                    Some((rest, q)) => dec_entry_items(b@, pos as int, n as nat) == Some(
                        (acc.deep_view() + rest, q),
                    ),
                    None => dec_entry_items(b@, pos as int, n as nat) is None,
                }
            }),
        decreases n - i,
    {
        let ghost rem = (n - i) as nat;
        match decode_entry(b, cur) {
            None => {
                proof {
                    assert(dec_entry_items(b@, cur as int, rem) is None);
                }
                return None;
            },
            Some((e, p)) => {
                let ghost old_acc = acc.deep_view();
                let ghost ev = e.deep_view();
                proof {
                    match dec_entry_items(b@, p as int, (rem - 1) as nat) {
                        Some((rest, q)) => {
                            assert((old_acc + seq![ev]) + rest =~= old_acc + (seq![ev] + rest));
                        },
                        None => {},
                    }
                }
                acc.push(e);
                proof {
                    assert(acc.deep_view() =~= old_acc + seq![ev]);
                }
                cur = p;
                i = i + 1;
            },
        }
    }
    proof {
        assert(acc.deep_view() + Seq::<EntryView>::empty() =~= acc.deep_view());
    }
    Some((acc, cur))
}

/// Whether all entry names differ, pairwise and case-sensitively.
fn check_names_unique(entries: &Vec<Entry>) -> (b: bool)
    ensures
        b == names_unique(entries.deep_view()),
{
    let ghost dv = entries.deep_view();
    let n = entries.len();
    for i in 0..n
        invariant
            n == entries.len(),
            dv == entries.deep_view(),
            forall|a: int, c: int|
                0 <= a < c < i ==> (#[trigger] dv[a]).name != (#[trigger] dv[c]).name,
    {
        for j in 0..i
            invariant
                n == entries.len(),
                i < n,
                dv == entries.deep_view(),
                forall|a: int, c: int|
                    0 <= a < c < i ==> (#[trigger] dv[a]).name != (#[trigger] dv[c]).name,
                forall|a: int| 0 <= a < j ==> (#[trigger] dv[a]).name != dv[i as int].name,
        {
            if entries[j].name.eq(&entries[i].name) {
                proof {
                    assert(dv[j as int].name == dv[i as int].name);
                    assert(!names_unique(dv));
                }
                return false;
            }
        }
    }
    true
}

/// Reads a whole vault back from payload bytes; rejects trailing garbage and
/// duplicate entry names.
pub fn decode_vault(b: &[u8]) -> (r: Option<Vault>)
    ensures
        r matches Some(v) ==> spec_dec_vault(b@) == Some(v.deep_view()) && v.deep_view().wf(),
        r is None ==> spec_dec_vault(b@) is None,
{
    let (owner, p1) = match read_str(b, 0) {
        Some(x) => x,
        None => {
            return None;
        },
    };
    let (n, p2) = match read_u64(b, p1) {
        Some(x) => x,
        None => {
            return None;
        },
    };
    let (entries, p3) = match decode_entry_list(b, p2, n) {
        Some(x) => x,
        None => {
            return None;
        },
    };
    if p3 != b.len() {
        return None;
    }
    if !check_names_unique(&entries) {
        return None;
    }
    proof {
        lemma_dec_entry_items_wf(b@, p2 as int, n as nat);
    }
    let v = Vault { owner, entries };
    proof {
        assert(v.deep_view() =~~= spec_dec_vault(b@).unwrap());
    }
    Some(v)
}

} // verus!
