//! The serialized-file form of the note store: every note written to one
//! text document as three length-prefixed fields, and read back.
//!
//! Each field is stored as its character count in decimal, a colon, the
//! characters themselves, and a line break; a note is its id, body, and date
//! in that order, and the document is one note after another.  The length
//! prefix lets field text hold colons and line breaks freely.

use vstd::prelude::*;
use vstd::string::*;
use crate::model::Note;
use crate::text::all_digits;
use crate::text::dec_spec;
use crate::text::digit_val;
use crate::text::digits_val;
use crate::text::is_digit_char;
use crate::text::lemma_canonical_digits;
use crate::text::lemma_dec_spec_no_leading_zero;
use crate::text::lemma_dec_spec_props;
use crate::text::lemma_digits_val_prefix_le;
use crate::text::render_usize;

verus! {

/// Failure to read the backing text of the file-form store.
#[derive(Clone, Copy, PartialEq, Eq, Structural, Debug)]
pub enum DecodeError {
    /// The text is not a well-formed sequence of records.
    Deserialization,
}

/// One stored field: its character count in decimal, a colon, the
/// characters, and a line break.
pub open spec fn enc_field(f: Seq<char>) -> Seq<char> {
    dec_spec(f.len()) + ":"@ + f + "\n"@
}

/// One stored note: its three fields in order.
pub open spec fn enc_note(n: Note) -> Seq<char> {
    enc_field(n.id@) + enc_field(n.note@) + enc_field(n.date@)
}

/// A whole store of notes: one record after another, in listing order.
pub open spec fn enc_notes(s: Seq<Note>) -> Seq<char>
    decreases s.len(),
{
    if s.len() == 0 {
        Seq::<char>::empty()
    } else {
        enc_notes(s.drop_last()) + enc_note(s.last())
    }
}

fn append_field(r: &mut String, f: &str)
    ensures
        final(r)@ == old(r)@ + enc_field(f@),
{
    let len_text = render_usize(f.unicode_len());
    r.append(len_text.as_str());
    r.append(":");
    r.append(f);
    r.append("\n");
    proof {
        assert(r@ =~= old(r)@ + enc_field(f@));
    }
}

/// Writes the notes as the file form stores them.
pub fn encode_notes(notes: &Vec<Note>) -> (r: String)
    ensures
        r@ == enc_notes(notes@),
{
    let mut r = String::new();
    let n = notes.len();
    let mut i: usize = 0;
    proof {
        assert(notes@.subrange(0, 0) =~= Seq::<Note>::empty());
        assert(r@ =~= enc_notes(notes@.subrange(0, 0)));
    }
    while i < n
        invariant
            i <= n,
            n == notes@.len(),
            r@ == enc_notes(notes@.subrange(0, i as int)),
        decreases n - i,
    {
        append_field(&mut r, notes[i].id.as_str());
        append_field(&mut r, notes[i].note.as_str());
        append_field(&mut r, notes[i].date.as_str());
        proof {
            let t = notes@.subrange(0, i as int + 1);
            assert(t.drop_last() =~= notes@.subrange(0, i as int));
            assert(t.last() == notes@[i as int]);
            assert(r@ =~= enc_notes(t));
        }
        i = i + 1;
    }
    proof {
        assert(notes@.subrange(0, n as int) =~= notes@);
    }
    r
}

/// Where a text that starts with a field encoding keeps each part: the
/// maximal digit run ending at `j` is exactly the length prefix, and the
/// colon, the field, and the line break stand at the positions it fixes.
proof fn lemma_field_shape(tv: Seq<char>, pos: int, j: int, f: Seq<char>, rest: Seq<char>)
    requires
        0 <= pos <= j <= tv.len(),
        tv.subrange(pos, tv.len() as int) == enc_field(f) + rest,
        all_digits(tv.subrange(pos, j)),
        j < tv.len() ==> !is_digit_char(tv[j]),
    ensures
        j == pos + dec_spec(f.len()).len(),
        tv.subrange(pos, j) == dec_spec(f.len()),
        digits_val(tv.subrange(pos, j)) == f.len(),
        j < tv.len(),
        tv[j] == ':',
        j + 2 + f.len() <= tv.len(),
        tv.subrange(j + 1, j + 1 + f.len()) == f,
        tv[j + 1 + f.len()] == '\n',
{
    reveal_strlit(":");
    reveal_strlit("\n");
    lemma_dec_spec_props(f.len());
    let d = dec_spec(f.len());
    let dlen = d.len() as int;
    let rem = tv.subrange(pos, tv.len() as int);
    assert(enc_field(f).len() == dlen + 2 + f.len());
    assert(rem.len() == enc_field(f).len() + rest.len());
    assert forall|k: int| 0 <= k < dlen implies rem[k] == d[k] by {
        assert(enc_field(f)[k] == d[k]);
    }
    assert(rem[dlen] == ':') by {
        assert(enc_field(f)[dlen] == ':');
    }
    assert forall|k: int| 0 <= k < f.len() implies rem[dlen + 1 + k] == f[k] by {
        assert(enc_field(f)[dlen + 1 + k] == f[k]);
    }
    assert(rem[dlen + 1 + f.len()] == '\n') by {
        assert(enc_field(f)[dlen + 1 + f.len()] == '\n');
    }
    if j - pos > dlen {
        assert(is_digit_char(tv.subrange(pos, j)[dlen]));
        assert(tv.subrange(pos, j)[dlen] == rem[dlen]);
        assert(false);
    }
    if j - pos < dlen {
        assert(j < tv.len());
        assert(tv[j] == rem[j - pos]);
        assert(rem[j - pos] == d[j - pos]);
        assert(is_digit_char(d[j - pos]));
        assert(false);
    }
    assert(tv.subrange(pos, j) =~= d);
    assert(tv[j] == rem[dlen]);
    assert(tv.subrange(j + 1, j + 1 + f.len()) =~= f);
    assert(tv[j + 1 + f.len()] == rem[dlen + 1 + f.len()]);
}

fn digit_run_end(t: &str, pos: usize) -> (j: usize)
    requires
        pos <= t@.len(),
    ensures
        pos <= j <= t@.len(),
        all_digits(t@.subrange(pos as int, j as int)),
        j < t@.len() ==> !is_digit_char(t@[j as int]),
{
    let n = t.unicode_len();
    let mut j: usize = pos;
    proof {
        assert(t@.subrange(pos as int, pos as int) =~= Seq::<char>::empty());
    }
    while j < n
        invariant
            pos <= j <= n,
            n == t@.len(),
            all_digits(t@.subrange(pos as int, j as int)),
        decreases n - j,
    {
        let c = t.get_char(j);
        let cu = c as u32;
        if cu < 48 || cu > 57 {
            return j;
        }
        proof {
            let prefix = t@.subrange(pos as int, j as int);
            let next = t@.subrange(pos as int, j as int + 1);
            assert(next.drop_last() =~= prefix);
            assert(next.last() == t@[j as int]);
            assert(all_digits(next)) by {
                assert(forall|k: int| 0 <= k < next.len() - 1 ==> next[k] == prefix[k]);
            }
        }
        j = j + 1;
    }
    j
}

/// Reads one length-prefixed field starting at `pos`.  On success the
/// consumed region is exactly the field's canonical encoding; on failure no
/// field encoding starts at `pos` at all.
fn parse_field(t: &str, pos: usize) -> (r: Result<(String, usize), DecodeError>)
    requires
        pos <= t@.len(),
    ensures
        r matches Ok(fp) ==> pos < fp.1 <= t@.len() && t@.subrange(pos as int, fp.1 as int)
            == enc_field(fp.0@),
        r is Err ==> forall|f: Seq<char>, rest: Seq<char>|
            t@.subrange(pos as int, t@.len() as int) != enc_field(f) + rest,
{
    proof {
        reveal_strlit(":");
        reveal_strlit("\n");
    }
    let n = t.unicode_len();
    let j = digit_run_end(t, pos);
    if j == pos {
        proof {
            assert forall|f: Seq<char>, rest: Seq<char>|
                t@.subrange(pos as int, n as int) != enc_field(f) + rest by {
                if t@.subrange(pos as int, n as int) == enc_field(f) + rest {
                    lemma_field_shape(t@, pos as int, j as int, f, rest);
                    lemma_dec_spec_props(f.len());
                    assert(false);
                }
            }
        }
        return Err(DecodeError::Deserialization);
    }
    if j > pos + 1 && t.get_char(pos) == '0' {
        proof {
            assert forall|f: Seq<char>, rest: Seq<char>|
                t@.subrange(pos as int, n as int) != enc_field(f) + rest by {
                if t@.subrange(pos as int, n as int) == enc_field(f) + rest {
                    lemma_field_shape(t@, pos as int, j as int, f, rest);
                    lemma_dec_spec_no_leading_zero(f.len());
                    assert(dec_spec(f.len())[0] == t@.subrange(pos as int, j as int)[0]);
                    assert(t@.subrange(pos as int, j as int)[0] == t@[pos as int]);
                    assert(false);
                }
            }
        }
        return Err(DecodeError::Deserialization);
    }
    let colon_ok = if j < n {
        t.get_char(j) == ':'
    } else {
        false
    };
    if !colon_ok {
        proof {
            assert forall|f: Seq<char>, rest: Seq<char>|
                t@.subrange(pos as int, n as int) != enc_field(f) + rest by {
                if t@.subrange(pos as int, n as int) == enc_field(f) + rest {
                    lemma_field_shape(t@, pos as int, j as int, f, rest);
                    assert(false);
                }
            }
        }
        return Err(DecodeError::Deserialization);
    }
    let mut i: usize = pos;
    let mut val: usize = 0;
    proof {
        assert(t@.subrange(pos as int, pos as int) =~= Seq::<char>::empty());
    }
    while i < j
        invariant
            pos <= i <= j <= n,
            n == t@.len(),
            j < n,
            t@[j as int] == ':',
            all_digits(t@.subrange(pos as int, j as int)),
            val == digits_val(t@.subrange(pos as int, i as int)),
            val <= n,
        decreases j - i,
    {
        proof {
            assert(is_digit_char(t@[i as int])) by {
                assert(t@.subrange(pos as int, j as int)[i - pos] == t@[i as int]);
            }
        }
        let c = t.get_char(i);
        let cu = c as u32;
        let dv = (cu - 48) as usize;
        proof {
            let prefix = t@.subrange(pos as int, i as int);
            let next = t@.subrange(pos as int, i as int + 1);
            assert(next.drop_last() =~= prefix);
            assert(next.last() == t@[i as int]);
            assert(digit_val(t@[i as int]) == dv as nat);
            assert(digits_val(next) == digits_val(prefix) * 10 + dv);
        }
        if val > (usize::MAX - dv) / 10 {
            proof {
                let m = (usize::MAX - dv) as int;
                assert(m == 10 * (m / 10) + m % 10);
                assert(0 <= m % 10 < 10);
                assert(val * 10 + dv > usize::MAX);
                assert forall|f: Seq<char>, rest: Seq<char>|
                    t@.subrange(pos as int, n as int) != enc_field(f) + rest by {
                    if t@.subrange(pos as int, n as int) == enc_field(f) + rest {
                        lemma_field_shape(t@, pos as int, j as int, f, rest);
                        let d = dec_spec(f.len());
                        assert(t@.subrange(pos as int, i as int + 1) =~= d.subrange(
                            0,
                            i - pos + 1,
                        ));
                        lemma_digits_val_prefix_le(d, i - pos + 1);
                        assert(digits_val(t@.subrange(pos as int, i as int + 1)) <= f.len());
                        assert(f.len() <= n);
                        assert(false);
                    }
                }
            }
            return Err(DecodeError::Deserialization);
        }
        proof {
            let m = (usize::MAX - dv) as int;
            assert(m == 10 * (m / 10) + m % 10);
            assert(0 <= m % 10 < 10);
            assert(val * 10 <= m);
        }
        val = val * 10 + dv;
        if val > n {
            proof {
                assert forall|f: Seq<char>, rest: Seq<char>|
                    t@.subrange(pos as int, n as int) != enc_field(f) + rest by {
                    if t@.subrange(pos as int, n as int) == enc_field(f) + rest {
                        lemma_field_shape(t@, pos as int, j as int, f, rest);
                        let d = dec_spec(f.len());
                        assert(t@.subrange(pos as int, i as int + 1) =~= d.subrange(
                            0,
                            i - pos + 1,
                        ));
                        lemma_digits_val_prefix_le(d, i - pos + 1);
                        assert(digits_val(t@.subrange(pos as int, i as int + 1)) <= f.len());
                        assert(f.len() <= n);
                        assert(false);
                    }
                }
            }
            return Err(DecodeError::Deserialization);
        }
        i = i + 1;
    }
    let start = j + 1;
    if val > n - start {
        proof {
            assert forall|f: Seq<char>, rest: Seq<char>|
                t@.subrange(pos as int, n as int) != enc_field(f) + rest by {
                if t@.subrange(pos as int, n as int) == enc_field(f) + rest {
                    lemma_field_shape(t@, pos as int, j as int, f, rest);
                    assert(val == f.len());
                    assert(false);
                }
            }
        }
        return Err(DecodeError::Deserialization);
    }
    let end = start + val;
    let fld = t.substring_char(start, end);
    let nl_ok = if end < n {
        t.get_char(end) == '\n'
    } else {
        false
    };
    if !nl_ok {
        proof {
            assert forall|f: Seq<char>, rest: Seq<char>|
                t@.subrange(pos as int, n as int) != enc_field(f) + rest by {
                if t@.subrange(pos as int, n as int) == enc_field(f) + rest {
                    lemma_field_shape(t@, pos as int, j as int, f, rest);
                    assert(val == f.len());
                    assert(end == j + 1 + f.len());
                    assert(false);
                }
            }
        }
        return Err(DecodeError::Deserialization);
    }
    let field = fld.to_owned();
    proof {
        let dg = t@.subrange(pos as int, j as int);
        assert(dg[0] == t@[pos as int]);
        assert(dg.len() > 1 ==> dg[0] != '0');
        lemma_canonical_digits(dg);
        assert(dg == dec_spec(field@.len()));
        assert(t@.subrange(pos as int, end + 1 as int) =~= enc_field(field@));
    }
    Ok((field, end + 1))
}

proof fn lemma_enc_field_prefix(f1: Seq<char>, f2: Seq<char>, r1: Seq<char>, r2: Seq<char>)
    requires
        enc_field(f1) + r1 == enc_field(f2) + r2,
    ensures
        f1 == f2,
        r1 == r2,
{
    reveal_strlit(":");
    reveal_strlit("\n");
    lemma_dec_spec_props(f1.len());
    lemma_dec_spec_props(f2.len());
    let d1 = dec_spec(f1.len());
    let d2 = dec_spec(f2.len());
    let s = enc_field(f1) + r1;
    assert(d1.len() == d2.len()) by {
        if d1.len() < d2.len() {
            assert(s[d1.len() as int] == ':');
            assert(s[d1.len() as int] == d2[d1.len() as int]);
            assert(is_digit_char(d2[d1.len() as int]));
            assert(false);
        }
        if d2.len() < d1.len() {
            assert(s[d2.len() as int] == ':');
            assert(s[d2.len() as int] == d1[d2.len() as int]);
            assert(is_digit_char(d1[d2.len() as int]));
            assert(false);
        }
    }
    assert(d1 =~= d2) by {
        assert forall|k: int| 0 <= k < d1.len() implies d1[k] == d2[k] by {
            assert(d1[k] == s[k]);
            assert(d2[k] == s[k]);
        }
    }
    assert(f1.len() == f2.len());
    let base = d1.len() as int + 1;
    assert(f1 =~= f2) by {
        assert forall|k: int| 0 <= k < f1.len() implies f1[k] == f2[k] by {
            assert(f1[k] == s[base + k]);
            assert(f2[k] == s[base + k]);
        }
    }
    let fl = enc_field(f1).len() as int;
    assert(enc_field(f2).len() == fl);
    assert(r1.len() == r2.len()) by {
        assert((enc_field(f1) + r1).len() == (enc_field(f2) + r2).len());
        assert((enc_field(f1) + r1).len() == enc_field(f1).len() + r1.len());
        assert((enc_field(f2) + r2).len() == enc_field(f2).len() + r2.len());
        assert(enc_field(f1).len() == enc_field(f2).len());
    }
    assert(r1 =~= r2) by {
        assert forall|k: int| 0 <= k < r1.len() implies r1[k] == r2[k] by {
            assert(r1[k] == s[fl + k]);
            assert(r2[k] == s[fl + k]);
        }
    }
}

proof fn lemma_enc_note_prefix(a: Note, b: Note, r1: Seq<char>, r2: Seq<char>)
    requires
        enc_note(a) + r1 == enc_note(b) + r2,
    ensures
        a.id@ == b.id@,
        a.note@ == b.note@,
        a.date@ == b.date@,
        r1 == r2,
{
    assert(enc_note(a) + r1 =~= enc_field(a.id@) + (enc_field(a.note@) + (enc_field(a.date@)
        + r1)));
    assert(enc_note(b) + r2 =~= enc_field(b.id@) + (enc_field(b.note@) + (enc_field(b.date@)
        + r2)));
    lemma_enc_field_prefix(
        a.id@,
        b.id@,
        enc_field(a.note@) + (enc_field(a.date@) + r1),
        enc_field(b.note@) + (enc_field(b.date@) + r2),
    );
    lemma_enc_field_prefix(a.note@, b.note@, enc_field(a.date@) + r1, enc_field(b.date@) + r2);
    lemma_enc_field_prefix(a.date@, b.date@, r1, r2);
}

proof fn lemma_enc_notes_first(s: Seq<Note>)
    requires
        s.len() > 0,
    ensures
        enc_notes(s) == enc_note(s.first()) + enc_notes(s.drop_first()),
    decreases s.len(),
{
    if s.len() == 1 {
        assert(s.first() == s.last());
        assert(enc_notes(s.drop_last()).len() == 0);
        assert(enc_notes(s.drop_first()).len() == 0);
        assert(enc_notes(s) =~= enc_note(s.first()) + enc_notes(s.drop_first()));
    } else {
        let t = s.drop_last();
        lemma_enc_notes_first(t);
        let u = s.drop_first();
        assert(t.first() == s.first());
        assert(u.drop_last() =~= t.drop_first());
        assert(u.last() == s.last());
        assert(enc_notes(u) == enc_notes(t.drop_first()) + enc_note(s.last()));
        assert(enc_notes(s) =~= enc_note(s.first()) + enc_notes(u));
    }
}

proof fn lemma_enc_notes_len(s: Seq<Note>)
    requires
        s.len() > 0,
    ensures
        enc_notes(s).len() > 0,
{
    reveal_strlit(":");
    reveal_strlit("\n");
    lemma_enc_notes_first(s);
    lemma_dec_spec_props(s.first().id@.len());
}

proof fn lemma_enc_notes_split(s: Seq<Note>, acc: Seq<Note>, rem: Seq<char>)
    requires
        enc_notes(s) == enc_notes(acc) + rem,
    ensures
        exists|u: Seq<Note>| enc_notes(u) == rem,
    decreases acc.len(),
{
    if acc.len() == 0 {
        assert(enc_notes(acc).len() == 0);
        assert(enc_notes(s) =~= rem);
        assert(enc_notes(s) == rem);
    } else {
        if s.len() == 0 {
            lemma_enc_notes_len(acc);
            assert(false);
        }
        lemma_enc_notes_first(s);
        lemma_enc_notes_first(acc);
        assert(enc_note(s.first()) + enc_notes(s.drop_first()) =~= enc_note(acc.first()) + (
        enc_notes(acc.drop_first()) + rem));
        lemma_enc_note_prefix(
            s.first(),
            acc.first(),
            enc_notes(s.drop_first()),
            enc_notes(acc.drop_first()) + rem,
        );
        lemma_enc_notes_split(s.drop_first(), acc.drop_first(), rem);
    }
}

/// Two note sequences that serialize to the same text hold the same records,
/// field for field: the file form stores its contents unambiguously, so a
/// sound read is the one record sequence the text stands for.
pub proof fn lemma_encoding_injective(a: Seq<Note>, b: Seq<Note>)
    requires
        enc_notes(a) == enc_notes(b),
    ensures
        a.len() == b.len(),
        forall|i: int|
            0 <= i < a.len() ==> a[i].id@ == b[i].id@ && a[i].note@ == b[i].note@ && a[i].date@
                == b[i].date@,
    decreases a.len(),
{
    if a.len() == 0 && b.len() == 0 {
    } else if a.len() == 0 {
        lemma_enc_notes_len(b);
        assert(false);
    } else if b.len() == 0 {
        lemma_enc_notes_len(a);
        assert(false);
    } else {
        lemma_enc_notes_first(a);
        lemma_enc_notes_first(b);
        lemma_enc_note_prefix(
            a.first(),
            b.first(),
            enc_notes(a.drop_first()),
            enc_notes(b.drop_first()),
        );
        lemma_encoding_injective(a.drop_first(), b.drop_first());
        assert forall|i: int|
            0 <= i < a.len() implies a[i].id@ == b[i].id@ && a[i].note@ == b[i].note@ && a[i].date@
            == b[i].date@ by {
            if i > 0 {
                assert(a[i] == a.drop_first()[i - 1]);
                assert(b[i] == b.drop_first()[i - 1]);
            }
        }
    }
}

proof fn lemma_err_at_first(tv: Seq<char>, acc: Seq<Note>, pos: int)
    requires
        0 <= pos < tv.len(),
        enc_notes(acc) == tv.subrange(0, pos),
        forall|f: Seq<char>, rest: Seq<char>|
            tv.subrange(pos, tv.len() as int) != enc_field(f) + rest,
    ensures
        forall|s: Seq<Note>| enc_notes(s) != tv,
{
    assert forall|s: Seq<Note>| enc_notes(s) != tv by {
        if enc_notes(s) == tv {
            let rem = tv.subrange(pos, tv.len() as int);
            assert(tv =~= tv.subrange(0, pos) + rem);
            assert(enc_notes(s) == enc_notes(acc) + rem);
            lemma_enc_notes_split(s, acc, rem);
            let u = choose|u: Seq<Note>| enc_notes(u) == rem;
            if u.len() == 0 {
                assert(rem.len() == 0);
                assert(false);
            }
            lemma_enc_notes_first(u);
            assert(rem =~= enc_field(u.first().id@) + (enc_field(u.first().note@) + (enc_field(
                u.first().date@,
            ) + enc_notes(u.drop_first()))));
            assert(false);
        }
    }
}

proof fn lemma_err_at_second(tv: Seq<char>, acc: Seq<Note>, pos: int, p1: int, idv: Seq<char>)
    requires
        0 <= pos < p1 <= tv.len(),
        enc_notes(acc) == tv.subrange(0, pos),
        tv.subrange(pos, p1) == enc_field(idv),
        forall|f: Seq<char>, rest: Seq<char>|
            tv.subrange(p1, tv.len() as int) != enc_field(f) + rest,
    ensures
        forall|s: Seq<Note>| enc_notes(s) != tv,
{
    assert forall|s: Seq<Note>| enc_notes(s) != tv by {
        if enc_notes(s) == tv {
            let rem = tv.subrange(pos, tv.len() as int);
            assert(tv =~= tv.subrange(0, pos) + rem);
            assert(enc_notes(s) == enc_notes(acc) + rem);
            lemma_enc_notes_split(s, acc, rem);
            let u = choose|u: Seq<Note>| enc_notes(u) == rem;
            if u.len() == 0 {
                assert(rem.len() == 0);
                assert(false);
            }
            lemma_enc_notes_first(u);
            assert(rem =~= enc_field(u.first().id@) + (enc_field(u.first().note@) + (enc_field(
                u.first().date@,
            ) + enc_notes(u.drop_first()))));
            assert(rem =~= enc_field(idv) + tv.subrange(p1, tv.len() as int));
            lemma_enc_field_prefix(
                idv,
                u.first().id@,
                tv.subrange(p1, tv.len() as int),
                enc_field(u.first().note@) + (enc_field(u.first().date@) + enc_notes(
                    u.drop_first(),
                )),
            );
            assert(false);
        }
    }
}

#[verifier::rlimit(50)]
proof fn lemma_err_at_third(
    tv: Seq<char>,
    acc: Seq<Note>,
    pos: int,
    p1: int,
    p2: int,
    idv: Seq<char>,
    bodyv: Seq<char>,
)
    requires
        0 <= pos < p1 < p2 <= tv.len(),
        enc_notes(acc) == tv.subrange(0, pos),
        tv.subrange(pos, p1) == enc_field(idv),
        tv.subrange(p1, p2) == enc_field(bodyv),
        forall|f: Seq<char>, rest: Seq<char>|
            tv.subrange(p2, tv.len() as int) != enc_field(f) + rest,
    ensures
        forall|s: Seq<Note>| enc_notes(s) != tv,
{
    assert forall|s: Seq<Note>| enc_notes(s) != tv by {
        if enc_notes(s) == tv {
            let rem = tv.subrange(pos, tv.len() as int);
            assert(tv =~= tv.subrange(0, pos) + rem);
            assert(enc_notes(s) == enc_notes(acc) + rem);
            lemma_enc_notes_split(s, acc, rem);
            let u = choose|u: Seq<Note>| enc_notes(u) == rem;
            if u.len() == 0 {
                assert(rem.len() == 0);
                assert(false);
            }
            lemma_enc_notes_first(u);
            assert(rem =~= enc_field(u.first().id@) + (enc_field(u.first().note@) + (enc_field(
                u.first().date@,
            ) + enc_notes(u.drop_first()))));
            assert(rem =~= enc_field(idv) + tv.subrange(p1, tv.len() as int));
            lemma_enc_field_prefix(
                idv,
                u.first().id@,
                tv.subrange(p1, tv.len() as int),
                enc_field(u.first().note@) + (enc_field(u.first().date@) + enc_notes(
                    u.drop_first(),
                )),
            );
            assert(tv.subrange(p1, tv.len() as int) =~= enc_field(bodyv) + tv.subrange(
                p2,
                tv.len() as int,
            ));
            lemma_enc_field_prefix(
                bodyv,
                u.first().note@,
                tv.subrange(p2, tv.len() as int),
                enc_field(u.first().date@) + enc_notes(u.drop_first()),
            );
            assert(false);
        }
    }
}

/// Reads the notes back from the file form's text.  A successful read
/// re-encodes to exactly the given text, so it is the one record sequence
/// the text canonically stores; a failure means no record sequence encodes
/// to the text at all.
pub fn decode_notes(t: &str) -> (r: Result<Vec<Note>, DecodeError>)
    ensures
        r matches Ok(v) ==> enc_notes(v@) == t@,
        t@.len() == 0 ==> (r matches Ok(v) && v@.len() == 0),
        r is Err ==> forall|s: Seq<Note>| enc_notes(s) != t@,
{
    let n = t.unicode_len();
    let mut notes: Vec<Note> = Vec::new();
    let mut pos: usize = 0;
    proof {
        assert(enc_notes(notes@) =~= t@.subrange(0, 0));
    }
    while pos < n
        invariant
            pos <= n,
            n == t@.len(),
            enc_notes(notes@) == t@.subrange(0, pos as int),
        decreases n - pos,
    {
        let (id, p1) = match parse_field(t, pos) {
            Ok(x) => x,
            Err(e) => {
                proof {
                    lemma_err_at_first(t@, notes@, pos as int);
                }
                return Err(e);
            },
        };
        let (body, p2) = match parse_field(t, p1) {
            Ok(x) => x,
            Err(e) => {
                proof {
                    lemma_err_at_second(t@, notes@, pos as int, p1 as int, id@);
                }
                return Err(e);
            },
        };
        let (date, p3) = match parse_field(t, p2) {
            Ok(x) => x,
            Err(e) => {
                proof {
                    lemma_err_at_third(
                        t@,
                        notes@,
                        pos as int,
                        p1 as int,
                        p2 as int,
                        id@,
                        body@,
                    );
                }
                return Err(e);
            },
        };
        let nt = Note { id, note: body, date };
        proof {
            assert(t@.subrange(pos as int, p3 as int) =~= enc_note(nt));
            let s2 = notes@.push(nt);
            assert(s2.drop_last() =~= notes@);
            assert(s2.last() == nt);
            assert(enc_notes(s2) =~= t@.subrange(0, p3 as int));
        }
        notes.push(nt);
        pos = p3;
    }
    proof {
        assert(t@.subrange(0, n as int) =~= t@);
    }
    Ok(notes)
}

/// Loads the file form's notes, recovering from an empty, absent, or corrupt
/// backing text by treating the store as empty.
pub fn load_notes(t: &str) -> (r: Vec<Note>)
    ensures
        enc_notes(r@) == t@ || r@.len() == 0,
        forall|s: Seq<Note>| #[trigger] enc_notes(s) == t@ ==> enc_notes(r@) == t@,
        t@.len() == 0 ==> r@.len() == 0,
{
    match decode_notes(t) {
        Ok(v) => v,
        Err(_) => Vec::new(),
    }
}

} // verus!
