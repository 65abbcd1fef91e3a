//! The on-disk form of the library: one JSON document, written and read by
//! this crate alone, with a proof that reading back what was written
//! restores the document exactly.
//!
//! Strings escape only the quote and the backslash (control characters are
//! written raw: the document is read by this parser, not by hand); numbers
//! are unsigned decimals. The parser is canonical: it accepts exactly the
//! shape the printer emits, which is what the round-trip proof leans on.

use vstd::prelude::*;
use crate::text::{dec_digits, digit_char};
use crate::song::{AlbumInfo, AlbumInfoView, HASH_SEED, Song, SongView, TrackRecord, TrackRecordView, hash_chars, hash_chars_vec, song_hash};
use crate::playlist::Playlist;
use crate::database::{AlbumHashed, CachedHashSong, DatabaseDataContainer, TrackHashMap};
use crate::text::{chars_of_str, push_u64_digits, string_of_chars};
use crate::playlist::PlaylistView;
use crate::database::{AlbumHashedView, CachedHashSongView, LibraryDocView, entries_wf, sorted_by_hash};

verus! {

// ---------------------------------------------------------------------
// Strings: escaping and its inverse.
// ---------------------------------------------------------------------

/// How one character is written inside a quoted string.
pub open spec fn esc_char(c: char) -> Seq<char> {
    if c == '"' {
        seq!['\\', '"']
    } else if c == '\\' {
        seq!['\\', '\\']
    } else {
        seq![c]
    }
}

/// A string's characters, escaped.
pub open spec fn esc(s: Seq<char>) -> Seq<char>
    decreases s.len(),
{
    if s.len() == 0 {
        Seq::empty()
    } else {
        esc_char(s.first()) + esc(s.drop_first())
    }
}

/// A quoted, escaped string.
pub open spec fn enc_str(s: Seq<char>) -> Seq<char> {
    seq!['"'] + esc(s) + seq!['"']
}

pub proof fn lemma_esc_append(a: Seq<char>, b: Seq<char>)
    ensures
        esc(a + b) == esc(a) + esc(b),
    decreases a.len(),
{
    if a.len() == 0 {
        assert(a + b =~= b);
        assert(esc(a) + esc(b) =~= esc(b));
    } else {
        assert((a + b).first() == a.first());
        assert((a + b).drop_first() =~= a.drop_first() + b);
        lemma_esc_append(a.drop_first(), b);
        assert(esc_char(a.first()) + (esc(a.drop_first()) + esc(b))
            =~= (esc_char(a.first()) + esc(a.drop_first())) + esc(b));
    }
}


/// A run written at `i` is readable character by character.
pub proof fn lemma_index_of_eq(s: Seq<char>, i: int, t: Seq<char>)
    requires
        0 <= i,
        i + t.len() <= s.len(),
        s.subrange(i, i + t.len()) == t,
    ensures
        forall|k: int| 0 <= k < t.len() ==> s[i + k] == #[trigger] t[k],
{
    assert forall|k: int| 0 <= k < t.len() implies s[i + k] == #[trigger] t[k] by {
        assert(s[i + k] == s.subrange(i, i + t.len())[k]);
    }
}

/// Scans a string body up to its closing quote, unescaping as it goes.
pub open spec fn p_str_body(s: Seq<char>, i: int, acc: Seq<char>) -> Option<(Seq<char>, int)>
    decreases s.len() - i,
{
    if i < 0 || i >= s.len() {
        None
    } else if s[i] == '"' {
        Some((acc, i + 1))
    } else if s[i] == '\\' {
        if i + 1 < s.len() && (s[i + 1] == '"' || s[i + 1] == '\\') {
            p_str_body(s, i + 2, acc.push(s[i + 1]))
        } else {
            None
        }
    } else {
        p_str_body(s, i + 1, acc.push(s[i]))
    }
}

/// Parses a quoted string at `i`.
pub open spec fn p_str(s: Seq<char>, i: int) -> Option<(Seq<char>, int)> {
    if 0 <= i < s.len() && s[i] == '"' {
        p_str_body(s, i + 1, Seq::empty())
    } else {
        None
    }
}

pub proof fn lemma_p_str_body_run(s: Seq<char>, i: int, acc: Seq<char>, x: Seq<char>)
    requires
        0 <= i,
        i + esc(x).len() + 1 <= s.len(),
        s.subrange(i, i + esc(x).len()) == esc(x),
        s[i + esc(x).len()] == '"',
    ensures
        p_str_body(s, i, acc) == Some((acc + x, i + esc(x).len() + 1)),
    decreases x.len(),
{
    if x.len() == 0 {
        assert(s[i] == '"');
        assert(acc + x =~= acc);
    } else {
        let c = x.first();
        let e = esc_char(c);
        let rest = x.drop_first();
        assert(esc(x) == e + esc(rest));
        lemma_index_of_eq(s, i, esc(x));
        assert(s[i + 0] == esc(x)[0]);
        if e.len() == 2 {
            assert(s[i + 1] == esc(x)[1]);
        }
        assert forall|k: int| 0 <= k < esc(rest).len()
            implies #[trigger] s.subrange(i + e.len(), i + esc(x).len())[k] == esc(rest)[k] by {
            assert(s[i + (e.len() + k)] == esc(x)[e.len() + k]);
            assert(esc(x)[e.len() + k] == esc(rest)[k]);
        }
        assert(s.subrange(i + e.len(), i + esc(x).len()) =~= esc(rest));
        if c == '"' {
            assert(s[i] == '\\' && s[i + 1] == '"');
            lemma_p_str_body_run(s, i + 2, acc.push('"'), rest);
            assert(acc.push('"') + rest =~= acc + x);
        } else if c == '\\' {
            assert(s[i] == '\\' && s[i + 1] == '\\');
            lemma_p_str_body_run(s, i + 2, acc.push('\\'), rest);
            assert(acc.push('\\') + rest =~= acc + x);
        } else {
            assert(s[i] == c);
            lemma_p_str_body_run(s, i + 1, acc.push(c), rest);
            assert(acc.push(c) + rest =~= acc + x);
        }
    }
}

pub proof fn lemma_p_str(s: Seq<char>, i: int, x: Seq<char>)
    requires
        0 <= i,
        i + enc_str(x).len() <= s.len(),
        s.subrange(i, i + enc_str(x).len()) == enc_str(x),
    ensures
        p_str(s, i) == Some((x, i + enc_str(x).len())),
{
    let n = enc_str(x).len() as int;
    lemma_index_of_eq(s, i, enc_str(x));
    assert(s[i + 0] == enc_str(x)[0]);
    assert(s[i] == '"');
    assert forall|k: int| 0 <= k < esc(x).len()
        implies #[trigger] s.subrange(i + 1, i + 1 + esc(x).len())[k] == esc(x)[k] by {
        assert(s[i + (1 + k)] == enc_str(x)[1 + k]);
        assert(enc_str(x)[1 + k] == esc(x)[k]);
    }
    assert(s.subrange(i + 1, i + 1 + esc(x).len()) =~= esc(x));
    assert(s[i + (1 + esc(x).len() as int)] == enc_str(x)[1 + esc(x).len() as int]);
    assert(s[i + 1 + esc(x).len()] == '"');
    lemma_p_str_body_run(s, i + 1, Seq::empty(), x);
    assert(Seq::<char>::empty() + x =~= x);
}

// ---------------------------------------------------------------------
// Numbers: unsigned decimals.
// ---------------------------------------------------------------------

pub open spec fn is_digit(c: char) -> bool {
    c == '0' || c == '1' || c == '2' || c == '3' || c == '4' || c == '5' || c == '6' || c == '7'
        || c == '8' || c == '9'
}

pub open spec fn digit_val(c: char) -> u64 {
    if c == '0' { 0 }
    else if c == '1' { 1 }
    else if c == '2' { 2 }
    else if c == '3' { 3 }
    else if c == '4' { 4 }
    else if c == '5' { 5 }
    else if c == '6' { 6 }
    else if c == '7' { 7 }
    else if c == '8' { 8 }
    else { 9 }
}

/// Consumes digits greedily, folding them into `acc`; a value past the
/// 64-bit range fails.
pub open spec fn p_digits(s: Seq<char>, i: int, acc: u64) -> Option<(u64, int)>
    decreases s.len() - i,
{
    if 0 <= i < s.len() && is_digit(s[i]) {
        let d = digit_val(s[i]);
        if acc > (u64::MAX - d) / 10 {
            None
        } else {
            p_digits(s, i + 1, (acc * 10 + d) as u64)
        }
    } else {
        Some((acc, i))
    }
}

/// Parses an unsigned decimal at `i`; at least one digit is required.
pub open spec fn p_u64(s: Seq<char>, i: int) -> Option<(u64, int)> {
    if 0 <= i < s.len() && is_digit(s[i]) {
        p_digits(s, i, 0)
    } else {
        None
    }
}

/// Ten to the `k`.
pub open spec fn pow10(k: nat) -> nat
    decreases k,
{
    if k == 0 {
        1
    } else {
        10 * pow10((k - 1) as nat)
    }
}

pub proof fn lemma_dec_digits_are_digits(n: u64)
    ensures
        forall|k: int| 0 <= k < dec_digits(n as nat).len()
            ==> is_digit(#[trigger] dec_digits(n as nat)[k]),
        dec_digits(n as nat).len() >= 1,
    decreases n,
{
    if n >= 10 {
        lemma_dec_digits_are_digits(n / 10);
        let dhi = dec_digits((n / 10) as nat);
        let ds = dec_digits(n as nat);
        assert(ds == dhi + seq![digit_char((n % 10) as nat)]);
        assert forall|k: int| 0 <= k < ds.len() implies is_digit(#[trigger] ds[k]) by {
            if k < dhi.len() {
                assert(ds[k] == dhi[k]);
            } else {
                assert(ds[k] == digit_char((n % 10) as nat));
            }
        }
    }
}

/// The value `n` written in decimal keeps its value through the digit
/// scanner, whatever follows it.
pub proof fn lemma_p_digits_run(s: Seq<char>, i: int, acc: u64, n: u64)
    requires
        0 <= i,
        i + dec_digits(n as nat).len() <= s.len(),
        s.subrange(i, i + dec_digits(n as nat).len()) == dec_digits(n as nat),
        acc * pow10(dec_digits(n as nat).len()) + n <= u64::MAX,
    ensures
        p_digits(s, i, acc) == p_digits(
            s,
            i + dec_digits(n as nat).len(),
            (acc * pow10(dec_digits(n as nat).len()) + n) as u64,
        ),
    decreases n,
{
    let ds = dec_digits(n as nat);
    lemma_index_of_eq(s, i, ds);
    if n < 10 {
        assert(ds =~= seq![digit_char(n as nat)]);
        assert(s[i + 0] == ds[0]);
        assert(s[i] == digit_char(n as nat));
        assert(is_digit(s[i]) && digit_val(s[i]) == n);
        assert(pow10(0) == 1);
        assert(pow10(1) == 10);
        assert(acc <= (u64::MAX - n) / 10) by (nonlinear_arith)
            requires
                acc * 10 + n <= u64::MAX,
                0 <= n < 10;
    } else {
        let hi = n / 10;
        let lo = n % 10;
        let dhi = dec_digits(hi as nat);
        assert(ds == dhi + seq![digit_char(lo as nat)]);
        let p = pow10(dhi.len());
        lemma_pow10_pos(dhi.len());
        assert(pow10(ds.len()) == 10 * p) by {
            assert(ds.len() == dhi.len() + 1);
        }
        assert forall|k: int| 0 <= k < dhi.len()
            implies #[trigger] s.subrange(i, i + dhi.len())[k] == dhi[k] by {
            assert(s[i + k] == ds[k]);
            assert(ds[k] == dhi[k]);
        }
        assert(s.subrange(i, i + dhi.len()) =~= dhi);
        assert(acc * p + hi <= u64::MAX) by (nonlinear_arith)
            requires
                acc * (10 * p) + n <= u64::MAX,
                p >= 1,
                hi == n / 10,
                lo == n % 10,
                n >= 10,
                p == pow10(dhi.len()),
                acc >= 0;
        lemma_p_digits_run(s, i, acc, hi);
        let mid = (acc * p + hi) as u64;
        let j = i + dhi.len();
        assert(s[i + dhi.len()] == ds[dhi.len() as int]);
        assert(s[j] == digit_char(lo as nat));
        assert(is_digit(s[j]) && digit_val(s[j]) == lo);
        assert(mid * 10 + lo == acc * (10 * p) + n) by (nonlinear_arith)
            requires
                mid == acc * p + hi,
                hi == n / 10,
                lo == n % 10,
                n >= 0;
        assert(mid <= (u64::MAX - lo) / 10) by (nonlinear_arith)
            requires
                mid * 10 + lo <= u64::MAX,
                0 <= lo < 10,
                mid >= 0;
        assert(p_digits(s, j, mid) == p_digits(s, j + 1, (mid * 10 + lo) as u64));
    }
}

/// The decimal the printer wrote for `n` parses back to `n`, provided no
/// digit follows it.
pub proof fn lemma_p_u64(s: Seq<char>, i: int, n: u64)
    requires
        0 <= i,
        i + dec_digits(n as nat).len() <= s.len(),
        s.subrange(i, i + dec_digits(n as nat).len()) == dec_digits(n as nat),
        i + dec_digits(n as nat).len() == s.len()
            || !is_digit(s[i + dec_digits(n as nat).len()]),
    ensures
        p_u64(s, i) == Some((n, i + dec_digits(n as nat).len())),
{
    let ds = dec_digits(n as nat);
    lemma_dec_digits_are_digits(n);
    lemma_index_of_eq(s, i, ds);
    assert(s[i + 0] == ds[0]);
    assert(is_digit(s[i]));
    assert(pow10(ds.len()) >= 1) by {
        lemma_pow10_pos(ds.len());
    }
    lemma_p_digits_run(s, i, 0, n);
    let j = i + ds.len();
    assert(p_digits(s, j, n) == Some((n, j)));
}

pub proof fn lemma_pow10_pos(k: nat)
    ensures
        pow10(k) >= 1,
    decreases k,
{
    if k > 0 {
        lemma_pow10_pos((k - 1) as nat);
    }
}

/// Splitting a written run into its first part and the rest.
pub proof fn lemma_subrange_split(s: Seq<char>, i: int, a: Seq<char>, b: Seq<char>)
    requires
        0 <= i,
        i + a.len() + b.len() <= s.len(),
        s.subrange(i, i + a.len() + b.len()) == a + b,
    ensures
        s.subrange(i, i + a.len()) == a,
        s.subrange(i + a.len(), i + a.len() + b.len()) == b,
{
    lemma_index_of_eq(s, i, a + b);
    assert forall|k: int| 0 <= k < a.len()
        implies #[trigger] s.subrange(i, i + a.len())[k] == a[k] by {
        assert(s[i + k] == (a + b)[k]);
    }
    assert(s.subrange(i, i + a.len()) =~= a);
    assert forall|k: int| 0 <= k < b.len()
        implies #[trigger] s.subrange(i + a.len(), i + a.len() + b.len())[k] == b[k] by {
        assert(s[i + (a.len() + k)] == (a + b)[a.len() + k]);
        assert((a + b)[a.len() + k] == b[k]);
    }
    assert(s.subrange(i + a.len(), i + a.len() + b.len()) =~= b);
}


// ---------------------------------------------------------------------
// Tokens and literals.
// ---------------------------------------------------------------------

/// Fixed text at `i`, consumed exactly.
pub open spec fn p_lit(s: Seq<char>, i: int, lit: Seq<char>) -> Option<int> {
    if 0 <= i && i + lit.len() <= s.len() && s.subrange(i, i + lit.len()) == lit {
        Some(i + lit.len())
    } else {
        None
    }
}

pub proof fn lemma_p_lit(s: Seq<char>, i: int, lit: Seq<char>)
    requires
        0 <= i,
        i + lit.len() <= s.len(),
        s.subrange(i, i + lit.len()) == lit,
    ensures
        p_lit(s, i, lit) == Some(i + lit.len()),
{
}

pub open spec fn t_null() -> Seq<char> {
    seq!['n', 'u', 'l', 'l']
}

pub open spec fn t_song_path() -> Seq<char> {
    seq!['{', '"', 'p', 'a', 't', 'h', '"', ':']
}

pub open spec fn t_title() -> Seq<char> {
    seq![',', '"', 't', 'i', 't', 'l', 'e', '"', ':']
}

pub open spec fn t_artist() -> Seq<char> {
    seq![',', '"', 'a', 'r', 't', 'i', 's', 't', '"', ':']
}

pub open spec fn t_album() -> Seq<char> {
    seq![',', '"', 'a', 'l', 'b', 'u', 'm', '"', ':']
}

pub open spec fn t_track() -> Seq<char> {
    seq![',', '"', 't', 'r', 'a', 'c', 'k', '"', ':']
}

pub open spec fn t_id() -> Seq<char> {
    seq!['{', '"', 'i', 'd', '"', ':']
}

pub open spec fn t_name() -> Seq<char> {
    seq![',', '"', 'n', 'a', 'm', 'e', '"', ':']
}

pub open spec fn t_image() -> Seq<char> {
    seq![',', '"', 'i', 'm', 'a', 'g', 'e', '"', ':']
}

pub open spec fn t_songs() -> Seq<char> {
    seq![',', '"', 's', 'o', 'n', 'g', 's', '"', ':']
}

pub open spec fn t_album_key() -> Seq<char> {
    seq!['{', '"', 'a', 'l', 'b', 'u', 'm', '"', ':']
}

pub open spec fn t_tracks() -> Seq<char> {
    seq![',', '"', 't', 'r', 'a', 'c', 'k', 's', '"', ':']
}

pub open spec fn t_doc_tracks() -> Seq<char> {
    seq!['{', '"', 't', 'r', 'a', 'c', 'k', 's', '"', ':']
}

pub open spec fn t_doc_playlists() -> Seq<char> {
    seq![',', '"', 'p', 'l', 'a', 'y', 'l', 'i', 's', 't', 's', '"', ':']
}

pub open spec fn t_doc_albums() -> Seq<char> {
    seq![',', '"', 'a', 'l', 'b', 'u', 'm', 's', '"', ':']
}

pub open spec fn t_rbrace() -> Seq<char> {
    seq!['}']
}

// ---------------------------------------------------------------------
// Node encoders.
// ---------------------------------------------------------------------

#[verifier::opaque]
pub open spec fn enc_opt_str(v: Option<Seq<char>>) -> Seq<char> {
    match v {
        None => t_null(),
        Some(x) => enc_str(x),
    }
}

#[verifier::opaque]
pub open spec fn enc_album_info(v: AlbumInfoView) -> Seq<char> {
    t_id() + dec_digits(v.id as nat) + t_title() + enc_str(v.title) + t_rbrace()
}

#[verifier::opaque]
pub open spec fn enc_opt_album_info(v: Option<AlbumInfoView>) -> Seq<char> {
    match v {
        None => t_null(),
        Some(x) => enc_album_info(x),
    }
}

#[verifier::opaque]
pub open spec fn enc_track(v: TrackRecordView) -> Seq<char> {
    t_id() + dec_digits(v.id as nat) + t_title() + enc_str(v.title) + t_artist()
        + enc_str(v.artist) + t_album() + enc_opt_album_info(v.album) + t_rbrace()
}

#[verifier::opaque]
pub open spec fn enc_opt_track(v: Option<TrackRecordView>) -> Seq<char> {
    match v {
        None => t_null(),
        Some(x) => enc_track(x),
    }
}

#[verifier::opaque]
pub open spec fn enc_song(v: SongView) -> Seq<char> {
    t_song_path() + enc_str(v.path) + t_title() + enc_str(v.title) + t_artist()
        + enc_str(v.artist) + t_album() + enc_str(v.album) + t_track()
        + enc_opt_track(v.remote_track) + t_rbrace()
}

pub open spec fn enc_num_tail(ns: Seq<u64>) -> Seq<char>
    decreases ns.len(),
{
    if ns.len() == 0 {
        Seq::empty()
    } else {
        seq![','] + dec_digits(ns.first() as nat) + enc_num_tail(ns.drop_first())
    }
}

pub open spec fn enc_num_list(ns: Seq<u64>) -> Seq<char> {
    if ns.len() == 0 {
        seq!['[', ']']
    } else {
        seq!['['] + dec_digits(ns.first() as nat) + enc_num_tail(ns.drop_first()) + seq![']']
    }
}

#[verifier::opaque]
pub open spec fn enc_playlist(v: PlaylistView) -> Seq<char> {
    t_id() + enc_str(v.id) + t_name() + enc_str(v.name) + t_image() + enc_opt_str(v.image)
        + t_songs() + enc_num_list(v.songs) + t_rbrace()
}

#[verifier::opaque]
pub open spec fn enc_album_rec(v: AlbumHashedView) -> Seq<char> {
    t_album_key() + enc_album_info(v.album) + t_tracks() + enc_num_list(v.tracks) + t_rbrace()
}

pub open spec fn enc_song_tail(vs: Seq<SongView>) -> Seq<char>
    decreases vs.len(),
{
    if vs.len() == 0 {
        Seq::empty()
    } else {
        seq![','] + enc_song(vs.first()) + enc_song_tail(vs.drop_first())
    }
}

pub open spec fn enc_song_list(vs: Seq<SongView>) -> Seq<char> {
    if vs.len() == 0 {
        seq!['[', ']']
    } else {
        seq!['['] + enc_song(vs.first()) + enc_song_tail(vs.drop_first()) + seq![']']
    }
}

pub open spec fn enc_playlist_tail(vs: Seq<PlaylistView>) -> Seq<char>
    decreases vs.len(),
{
    if vs.len() == 0 {
        Seq::empty()
    } else {
        seq![','] + enc_playlist(vs.first()) + enc_playlist_tail(vs.drop_first())
    }
}

pub open spec fn enc_playlist_list(vs: Seq<PlaylistView>) -> Seq<char> {
    if vs.len() == 0 {
        seq!['[', ']']
    } else {
        seq!['['] + enc_playlist(vs.first()) + enc_playlist_tail(vs.drop_first()) + seq![']']
    }
}

pub open spec fn enc_album_tail(vs: Seq<AlbumHashedView>) -> Seq<char>
    decreases vs.len(),
{
    if vs.len() == 0 {
        Seq::empty()
    } else {
        seq![','] + enc_album_rec(vs.first()) + enc_album_tail(vs.drop_first())
    }
}

pub open spec fn enc_album_list(vs: Seq<AlbumHashedView>) -> Seq<char> {
    if vs.len() == 0 {
        seq!['[', ']']
    } else {
        seq!['['] + enc_album_rec(vs.first()) + enc_album_tail(vs.drop_first()) + seq![']']
    }
}

/// The songs the track map stores, in stored order.
pub open spec fn doc_songs(tracks: Seq<CachedHashSongView>) -> Seq<SongView> {
    tracks.map_values(|e: CachedHashSongView| e.song)
}

/// The whole library document as one JSON object.
pub open spec fn enc_doc(d: LibraryDocView) -> Seq<char> {
    t_doc_tracks() + enc_song_list(doc_songs(d.tracks)) + t_doc_playlists()
        + enc_playlist_list(d.playlists) + t_doc_albums() + enc_album_list(d.albums)
        + t_rbrace()
}

// ---------------------------------------------------------------------
// Node parsers.
// ---------------------------------------------------------------------

pub open spec fn p_opt_str(s: Seq<char>, i: int) -> Option<(Option<Seq<char>>, int)> {
    if 0 <= i < s.len() && s[i] == 'n' {
        match p_lit(s, i, t_null()) {
            Some(j) => Some((None, j)),
            None => None,
        }
    } else {
        match p_str(s, i) {
            Some((x, j)) => Some((Some(x), j)),
            None => None,
        }
    }
}

pub open spec fn p_album_info(s: Seq<char>, i: int) -> Option<(AlbumInfoView, int)> {
    match p_lit(s, i, t_id()) {
        None => None,
        Some(j1) => match p_u64(s, j1) {
            None => None,
            Some((id, j2)) => match p_lit(s, j2, t_title()) {
                None => None,
                Some(j3) => match p_str(s, j3) {
                    None => None,
                    Some((title, j4)) => match p_lit(s, j4, t_rbrace()) {
                        None => None,
                        Some(j5) => Some(((AlbumInfoView { id, title }), j5)),
                    },
                },
            },
        },
    }
}

pub open spec fn p_opt_album_info(s: Seq<char>, i: int) -> Option<(Option<AlbumInfoView>, int)> {
    if 0 <= i < s.len() && s[i] == 'n' {
        match p_lit(s, i, t_null()) {
            Some(j) => Some((None, j)),
            None => None,
        }
    } else {
        match p_album_info(s, i) {
            Some((x, j)) => Some((Some(x), j)),
            None => None,
        }
    }
}

pub open spec fn p_track(s: Seq<char>, i: int) -> Option<(TrackRecordView, int)> {
    match p_lit(s, i, t_id()) {
        None => None,
        Some(j1) => match p_u64(s, j1) {
            None => None,
            Some((id, j2)) => match p_lit(s, j2, t_title()) {
                None => None,
                Some(j3) => match p_str(s, j3) {
                    None => None,
                    Some((title, j4)) => match p_lit(s, j4, t_artist()) {
                        None => None,
                        Some(j5) => match p_str(s, j5) {
                            None => None,
                            Some((artist, j6)) => match p_lit(s, j6, t_album()) {
                                None => None,
                                Some(j7) => match p_opt_album_info(s, j7) {
                                    None => None,
                                    Some((album, j8)) => match p_lit(s, j8, t_rbrace()) {
                                        None => None,
                                        Some(j9) => Some((
                                            (TrackRecordView { id, title, artist, album }),
                                            j9,
                                        )),
                                    },
                                },
                            },
                        },
                    },
                },
            },
        },
    }
}

pub open spec fn p_opt_track(s: Seq<char>, i: int) -> Option<(Option<TrackRecordView>, int)> {
    if 0 <= i < s.len() && s[i] == 'n' {
        match p_lit(s, i, t_null()) {
            Some(j) => Some((None, j)),
            None => None,
        }
    } else {
        match p_track(s, i) {
            Some((x, j)) => Some((Some(x), j)),
            None => None,
        }
    }
}

pub open spec fn p_song(s: Seq<char>, i: int) -> Option<(SongView, int)> {
    match p_lit(s, i, t_song_path()) {
        None => None,
        Some(j1) => match p_str(s, j1) {
            None => None,
            Some((path, j2)) => match p_lit(s, j2, t_title()) {
                None => None,
                Some(j3) => match p_str(s, j3) {
                    None => None,
                    Some((title, j4)) => match p_lit(s, j4, t_artist()) {
                        None => None,
                        Some(j5) => match p_str(s, j5) {
                            None => None,
                            Some((artist, j6)) => match p_lit(s, j6, t_album()) {
                                None => None,
                                Some(j7) => match p_str(s, j7) {
                                    None => None,
                                    Some((album, j8)) => match p_lit(s, j8, t_track()) {
                                        None => None,
                                        Some(j9) => match p_opt_track(s, j9) {
                                            None => None,
                                            Some((remote_track, j10)) => match p_lit(
                                                s,
                                                j10,
                                                t_rbrace(),
                                            ) {
                                                None => None,
                                                Some(j11) => Some((
                                                    (SongView {
                                                        path,
                                                        title,
                                                        artist,
                                                        album,
                                                        remote_track,
                                                    }),
                                                    j11,
                                                )),
                                            },
                                        },
                                    },
                                },
                            },
                        },
                    },
                },
            },
        },
    }
}

pub open spec fn p_num_rest(s: Seq<char>, i: int, acc: Seq<u64>) -> Option<(Seq<u64>, int)>
    decreases s.len() - i,
{
    if i < 0 || i >= s.len() {
        None
    } else if s[i] == ']' {
        Some((acc, i + 1))
    } else if s[i] == ',' {
        match p_u64(s, i + 1) {
            None => None,
            Some((n, j)) => if i + 1 < j <= s.len() {
                p_num_rest(s, j, acc.push(n))
            } else {
                None
            },
        }
    } else {
        None
    }
}

pub open spec fn p_num_list(s: Seq<char>, i: int) -> Option<(Seq<u64>, int)> {
    if 0 <= i && i + 1 < s.len() && s[i] == '[' {
        if s[i + 1] == ']' {
            Some((Seq::empty(), i + 2))
        } else {
            match p_u64(s, i + 1) {
                None => None,
                Some((n, j)) => if i + 1 < j <= s.len() {
                    p_num_rest(s, j, seq![n])
                } else {
                    None
                },
            }
        }
    } else {
        None
    }
}

pub open spec fn p_playlist(s: Seq<char>, i: int) -> Option<(PlaylistView, int)> {
    match p_lit(s, i, t_id()) {
        None => None,
        Some(j1) => match p_str(s, j1) {
            None => None,
            Some((id, j2)) => match p_lit(s, j2, t_name()) {
                None => None,
                Some(j3) => match p_str(s, j3) {
                    None => None,
                    Some((name, j4)) => match p_lit(s, j4, t_image()) {
                        None => None,
                        Some(j5) => match p_opt_str(s, j5) {
                            None => None,
                            Some((image, j6)) => match p_lit(s, j6, t_songs()) {
                                None => None,
                                Some(j7) => match p_num_list(s, j7) {
                                    None => None,
                                    Some((songs, j8)) => match p_lit(s, j8, t_rbrace()) {
                                        None => None,
                                        Some(j9) => Some((
                                            (PlaylistView { id, name, image, songs }),
                                            j9,
                                        )),
                                    },
                                },
                            },
                        },
                    },
                },
            },
        },
    }
}

pub open spec fn p_album_rec(s: Seq<char>, i: int) -> Option<(AlbumHashedView, int)> {
    match p_lit(s, i, t_album_key()) {
        None => None,
        Some(j1) => match p_album_info(s, j1) {
            None => None,
            Some((album, j2)) => match p_lit(s, j2, t_tracks()) {
                None => None,
                Some(j3) => match p_num_list(s, j3) {
                    None => None,
                    Some((tracks, j4)) => match p_lit(s, j4, t_rbrace()) {
                        None => None,
                        Some(j5) => Some(((AlbumHashedView { album, tracks }), j5)),
                    },
                },
            },
        },
    }
}

pub open spec fn p_song_rest(s: Seq<char>, i: int, acc: Seq<SongView>)
    -> Option<(Seq<SongView>, int)>
    decreases s.len() - i,
{
    if i < 0 || i >= s.len() {
        None
    } else if s[i] == ']' {
        Some((acc, i + 1))
    } else if s[i] == ',' {
        match p_song(s, i + 1) {
            None => None,
            Some((v, j)) => if i + 1 < j <= s.len() {
                p_song_rest(s, j, acc.push(v))
            } else {
                None
            },
        }
    } else {
        None
    }
}

pub open spec fn p_song_list(s: Seq<char>, i: int) -> Option<(Seq<SongView>, int)> {
    if 0 <= i && i + 1 < s.len() && s[i] == '[' {
        if s[i + 1] == ']' {
            Some((Seq::empty(), i + 2))
        } else {
            match p_song(s, i + 1) {
                None => None,
                Some((v, j)) => if i + 1 < j <= s.len() {
                    p_song_rest(s, j, seq![v])
                } else {
                    None
                },
            }
        }
    } else {
        None
    }
}

pub open spec fn p_playlist_rest(s: Seq<char>, i: int, acc: Seq<PlaylistView>)
    -> Option<(Seq<PlaylistView>, int)>
    decreases s.len() - i,
{
    if i < 0 || i >= s.len() {
        None
    } else if s[i] == ']' {
        Some((acc, i + 1))
    } else if s[i] == ',' {
        match p_playlist(s, i + 1) {
            None => None,
            Some((v, j)) => if i + 1 < j <= s.len() {
                p_playlist_rest(s, j, acc.push(v))
            } else {
                None
            },
        }
    } else {
        None
    }
}

pub open spec fn p_playlist_list(s: Seq<char>, i: int) -> Option<(Seq<PlaylistView>, int)> {
    if 0 <= i && i + 1 < s.len() && s[i] == '[' {
        if s[i + 1] == ']' {
            Some((Seq::empty(), i + 2))
        } else {
            match p_playlist(s, i + 1) {
                None => None,
                Some((v, j)) => if i + 1 < j <= s.len() {
                    p_playlist_rest(s, j, seq![v])
                } else {
                    None
                },
            }
        }
    } else {
        None
    }
}

pub open spec fn p_album_rest(s: Seq<char>, i: int, acc: Seq<AlbumHashedView>)
    -> Option<(Seq<AlbumHashedView>, int)>
    decreases s.len() - i,
{
    if i < 0 || i >= s.len() {
        None
    } else if s[i] == ']' {
        Some((acc, i + 1))
    } else if s[i] == ',' {
        match p_album_rec(s, i + 1) {
            None => None,
            Some((v, j)) => if i + 1 < j <= s.len() {
                p_album_rest(s, j, acc.push(v))
            } else {
                None
            },
        }
    } else {
        None
    }
}

pub open spec fn p_album_list(s: Seq<char>, i: int) -> Option<(Seq<AlbumHashedView>, int)> {
    if 0 <= i && i + 1 < s.len() && s[i] == '[' {
        if s[i + 1] == ']' {
            Some((Seq::empty(), i + 2))
        } else {
            match p_album_rec(s, i + 1) {
                None => None,
                Some((v, j)) => if i + 1 < j <= s.len() {
                    p_album_rest(s, j, seq![v])
                } else {
                    None
                },
            }
        }
    } else {
        None
    }
}

pub open spec fn p_doc(s: Seq<char>, i: int)
    -> Option<(Seq<SongView>, Seq<PlaylistView>, Seq<AlbumHashedView>, int)> {
    match p_lit(s, i, t_doc_tracks()) {
        None => None,
        Some(j1) => match p_song_list(s, j1) {
            None => None,
            Some((songs, j2)) => match p_lit(s, j2, t_doc_playlists()) {
                None => None,
                Some(j3) => match p_playlist_list(s, j3) {
                    None => None,
                    Some((playlists, j4)) => match p_lit(s, j4, t_doc_albums()) {
                        None => None,
                        Some(j5) => match p_album_list(s, j5) {
                            None => None,
                            Some((albums, j6)) => match p_lit(s, j6, t_rbrace()) {
                                None => None,
                                Some(j7) => Some((songs, playlists, albums, j7)),
                            },
                        },
                    },
                },
            },
        },
    }
}

/// What a whole character sequence decodes to: the parsed document, its
/// track entries rebuilt under their semantic hashes, provided the whole
/// input is consumed and the entries come sorted.
pub open spec fn spec_decode(s: Seq<char>) -> Option<LibraryDocView> {
    match p_doc(s, 0) {
        None => None,
        Some((songs, playlists, albums, j)) => if j == s.len() {
            let tracks = songs.map_values(
                |v: SongView| CachedHashSongView { hash: song_hash(v), song: v },
            );
            if sorted_by_hash(tracks) {
                Some(LibraryDocView { tracks, playlists, albums })
            } else {
                None
            }
        } else {
            None
        },
    }
}


pub proof fn lemma_enc_album_info_head(v: AlbumInfoView)
    ensures
        enc_album_info(v).len() >= 1,
        enc_album_info(v)[0] == '{',
{
    reveal(enc_album_info);
}

pub proof fn lemma_enc_track_head(v: TrackRecordView)
    ensures
        enc_track(v).len() >= 1,
        enc_track(v)[0] == '{',
{
    reveal(enc_track);
}

pub proof fn lemma_enc_song_head(v: SongView)
    ensures
        enc_song(v).len() >= 1,
        enc_song(v)[0] == '{',
{
    reveal(enc_song);
}

pub proof fn lemma_enc_playlist_head(v: PlaylistView)
    ensures
        enc_playlist(v).len() >= 1,
        enc_playlist(v)[0] == '{',
{
    reveal(enc_playlist);
}

pub proof fn lemma_enc_album_rec_head(v: AlbumHashedView)
    ensures
        enc_album_rec(v).len() >= 1,
        enc_album_rec(v)[0] == '{',
{
    reveal(enc_album_rec);
}

pub proof fn lemma_p_opt_str(s: Seq<char>, i: int, v: Option<Seq<char>>)
    requires
        0 <= i,
        i + enc_opt_str(v).len() <= s.len(),
        s.subrange(i, i + enc_opt_str(v).len()) == enc_opt_str(v),
    ensures
        p_opt_str(s, i) == Some((v, i + enc_opt_str(v).len())),
{
    reveal(enc_opt_str);
    lemma_index_of_eq(s, i, enc_opt_str(v));
    match v {
        None => {
            assert(s[i + 0] == t_null()[0]);
            lemma_p_lit(s, i, t_null());
        },
        Some(x) => {
            assert(s[i + 0] == enc_str(x)[0]);
            assert(enc_str(x)[0] == '"');
            lemma_p_str(s, i, x);
        },
    }
}

pub proof fn lemma_p_album_info(s: Seq<char>, i: int, v: AlbumInfoView)
    requires
        0 <= i,
        i + enc_album_info(v).len() <= s.len(),
        s.subrange(i, i + enc_album_info(v).len()) == enc_album_info(v),
    ensures
        p_album_info(s, i) == Some(((AlbumInfoView { id: v.id, title: v.title }), i + enc_album_info(v).len())),
{
    reveal(enc_album_info);
    let e0 = t_id();
    let e1 = dec_digits(v.id as nat);
    let e2 = t_title();
    let e3 = enc_str(v.title);
    let e4 = t_rbrace();
    assert(enc_album_info(v) =~= e0 + (e1 + (e2 + (e3 + (e4)))));
    let i0 = i;
    lemma_subrange_split(s, i0, e0, e1 + (e2 + (e3 + (e4))));
    lemma_p_lit(s, i0, e0);
    let i1 = i0 + e0.len();
    lemma_subrange_split(s, i1, e1, e2 + (e3 + (e4)));
    lemma_index_of_eq(s, i1 + e1.len(), e2 + (e3 + (e4)));
    assert(s[i1 + e1.len() + 0] == (e2 + (e3 + (e4)))[0]);
    assert((e2 + (e3 + (e4)))[0] == e2[0]);
    assert(!is_digit(s[i1 + e1.len()]));
    lemma_p_u64(s, i1, v.id);
    let i2 = i1 + e1.len();
    lemma_subrange_split(s, i2, e2, e3 + (e4));
    lemma_p_lit(s, i2, e2);
    let i3 = i2 + e2.len();
    lemma_subrange_split(s, i3, e3, e4);
    lemma_p_str(s, i3, v.title);
    let i4 = i3 + e3.len();
    lemma_p_lit(s, i4, e4);
    let i5 = i4 + e4.len();
    assert(i5 == i + enc_album_info(v).len());
}

pub proof fn lemma_p_opt_album_info(s: Seq<char>, i: int, v: Option<AlbumInfoView>)
    requires
        0 <= i,
        i + enc_opt_album_info(v).len() <= s.len(),
        s.subrange(i, i + enc_opt_album_info(v).len()) == enc_opt_album_info(v),
    ensures
        p_opt_album_info(s, i) == Some((v, i + enc_opt_album_info(v).len())),
{
    reveal(enc_opt_album_info);
    lemma_index_of_eq(s, i, enc_opt_album_info(v));
    match v {
        None => {
            assert(s[i + 0] == t_null()[0]);
            lemma_p_lit(s, i, t_null());
        },
        Some(x) => {
            lemma_enc_album_info_head(x);
            assert(s[i + 0] == enc_album_info(x)[0]);
            lemma_p_album_info(s, i, x);
        },
    }
}

pub proof fn lemma_p_track(s: Seq<char>, i: int, v: TrackRecordView)
    requires
        0 <= i,
        i + enc_track(v).len() <= s.len(),
        s.subrange(i, i + enc_track(v).len()) == enc_track(v),
    ensures
        p_track(s, i) == Some(((TrackRecordView { id: v.id, title: v.title, artist: v.artist, album: v.album }), i + enc_track(v).len())),
{
    reveal(enc_track);
    let e0 = t_id();
    let e1 = dec_digits(v.id as nat);
    let e2 = t_title();
    let e3 = enc_str(v.title);
    let e4 = t_artist();
    let e5 = enc_str(v.artist);
    let e6 = t_album();
    let e7 = enc_opt_album_info(v.album);
    let e8 = t_rbrace();
    assert(enc_track(v) =~= e0 + (e1 + (e2 + (e3 + (e4 + (e5 + (e6 + (e7 + (e8)))))))));
    let i0 = i;
    lemma_subrange_split(s, i0, e0, e1 + (e2 + (e3 + (e4 + (e5 + (e6 + (e7 + (e8))))))));
    lemma_p_lit(s, i0, e0);
    let i1 = i0 + e0.len();
    lemma_subrange_split(s, i1, e1, e2 + (e3 + (e4 + (e5 + (e6 + (e7 + (e8)))))));
    lemma_index_of_eq(s, i1 + e1.len(), e2 + (e3 + (e4 + (e5 + (e6 + (e7 + (e8)))))));
    assert(s[i1 + e1.len() + 0] == (e2 + (e3 + (e4 + (e5 + (e6 + (e7 + (e8)))))))[0]);
    assert((e2 + (e3 + (e4 + (e5 + (e6 + (e7 + (e8)))))))[0] == e2[0]);
    assert(!is_digit(s[i1 + e1.len()]));
    lemma_p_u64(s, i1, v.id);
    let i2 = i1 + e1.len();
    lemma_subrange_split(s, i2, e2, e3 + (e4 + (e5 + (e6 + (e7 + (e8))))));
    lemma_p_lit(s, i2, e2);
    let i3 = i2 + e2.len();
    lemma_subrange_split(s, i3, e3, e4 + (e5 + (e6 + (e7 + (e8)))));
    lemma_p_str(s, i3, v.title);
    let i4 = i3 + e3.len();
    lemma_subrange_split(s, i4, e4, e5 + (e6 + (e7 + (e8))));
    lemma_p_lit(s, i4, e4);
    let i5 = i4 + e4.len();
    lemma_subrange_split(s, i5, e5, e6 + (e7 + (e8)));
    lemma_p_str(s, i5, v.artist);
    let i6 = i5 + e5.len();
    lemma_subrange_split(s, i6, e6, e7 + (e8));
    lemma_p_lit(s, i6, e6);
    let i7 = i6 + e6.len();
    lemma_subrange_split(s, i7, e7, e8);
    lemma_p_opt_album_info(s, i7, v.album);
    let i8 = i7 + e7.len();
    lemma_p_lit(s, i8, e8);
    let i9 = i8 + e8.len();
    assert(i9 == i + enc_track(v).len());
}

pub proof fn lemma_p_opt_track(s: Seq<char>, i: int, v: Option<TrackRecordView>)
    requires
        0 <= i,
        i + enc_opt_track(v).len() <= s.len(),
        s.subrange(i, i + enc_opt_track(v).len()) == enc_opt_track(v),
    ensures
        p_opt_track(s, i) == Some((v, i + enc_opt_track(v).len())),
{
    reveal(enc_opt_track);
    lemma_index_of_eq(s, i, enc_opt_track(v));
    match v {
        None => {
            assert(s[i + 0] == t_null()[0]);
            lemma_p_lit(s, i, t_null());
        },
        Some(x) => {
            lemma_enc_track_head(x);
            assert(s[i + 0] == enc_track(x)[0]);
            lemma_p_track(s, i, x);
        },
    }
}

#[verifier::rlimit(100)]
#[verifier::spinoff_prover]
pub proof fn lemma_p_song(s: Seq<char>, i: int, v: SongView)
    requires
        0 <= i,
        i + enc_song(v).len() <= s.len(),
        s.subrange(i, i + enc_song(v).len()) == enc_song(v),
    ensures
        p_song(s, i) == Some(((SongView { path: v.path, title: v.title, artist: v.artist, album: v.album, remote_track: v.remote_track }), i + enc_song(v).len())),
{
    reveal(enc_song);
    let e0 = t_song_path();
    let e1 = enc_str(v.path);
    let e2 = t_title();
    let e3 = enc_str(v.title);
    let e4 = t_artist();
    let e5 = enc_str(v.artist);
    let e6 = t_album();
    let e7 = enc_str(v.album);
    let e8 = t_track();
    let e9 = enc_opt_track(v.remote_track);
    let e10 = t_rbrace();
    assert(enc_song(v) =~= e0 + (e1 + (e2 + (e3 + (e4 + (e5 + (e6 + (e7 + (e8 + (e9 + (e10)))))))))));
    let i0 = i;
    lemma_subrange_split(s, i0, e0, e1 + (e2 + (e3 + (e4 + (e5 + (e6 + (e7 + (e8 + (e9 + (e10))))))))));
    lemma_p_lit(s, i0, e0);
    let i1 = i0 + e0.len();
    lemma_subrange_split(s, i1, e1, e2 + (e3 + (e4 + (e5 + (e6 + (e7 + (e8 + (e9 + (e10)))))))));
    lemma_p_str(s, i1, v.path);
    let i2 = i1 + e1.len();
    lemma_subrange_split(s, i2, e2, e3 + (e4 + (e5 + (e6 + (e7 + (e8 + (e9 + (e10))))))));
    lemma_p_lit(s, i2, e2);
    let i3 = i2 + e2.len();
    lemma_subrange_split(s, i3, e3, e4 + (e5 + (e6 + (e7 + (e8 + (e9 + (e10)))))));
    lemma_p_str(s, i3, v.title);
    let i4 = i3 + e3.len();
    lemma_subrange_split(s, i4, e4, e5 + (e6 + (e7 + (e8 + (e9 + (e10))))));
    lemma_p_lit(s, i4, e4);
    let i5 = i4 + e4.len();
    lemma_subrange_split(s, i5, e5, e6 + (e7 + (e8 + (e9 + (e10)))));
    lemma_p_str(s, i5, v.artist);
    let i6 = i5 + e5.len();
    lemma_subrange_split(s, i6, e6, e7 + (e8 + (e9 + (e10))));
    lemma_p_lit(s, i6, e6);
    let i7 = i6 + e6.len();
    lemma_subrange_split(s, i7, e7, e8 + (e9 + (e10)));
    lemma_p_str(s, i7, v.album);
    let i8 = i7 + e7.len();
    lemma_subrange_split(s, i8, e8, e9 + (e10));
    lemma_p_lit(s, i8, e8);
    let i9 = i8 + e8.len();
    lemma_subrange_split(s, i9, e9, e10);
    lemma_p_opt_track(s, i9, v.remote_track);
    let i10 = i9 + e9.len();
    lemma_p_lit(s, i10, e10);
    let i11 = i10 + e10.len();
    assert(i11 == i + enc_song(v).len());
}

pub proof fn lemma_p_num_rest_run(s: Seq<char>, i: int, acc: Seq<u64>, vs: Seq<u64>)
    requires
        0 <= i,
        i + enc_num_tail(vs).len() + 1 <= s.len(),
        s.subrange(i, i + enc_num_tail(vs).len() + 1) == enc_num_tail(vs) + seq![']'],
    ensures
        p_num_rest(s, i, acc) == Some((acc + vs, i + enc_num_tail(vs).len() + 1)),
    decreases vs.len(),
{
    let tail = enc_num_tail(vs);
    lemma_index_of_eq(s, i, tail + seq![']']);
    if vs.len() == 0 {
        assert(s[i + 0] == (tail + seq![']'])[0]);
        assert((tail + seq![']'])[0] == ']');
        assert(acc + vs =~= acc);
    } else {
        let e = dec_digits(vs.first() as nat);
        let rest = enc_num_tail(vs.drop_first());
        assert(tail == seq![','] + e + rest);
        assert(s[i + 0] == (tail + seq![']'])[0]);
        assert((tail + seq![']'])[0] == (seq![','] + e + rest)[0]);
        assert(s[i] == ',');
        assert(tail + seq![']'] =~= seq![','] + (e + (rest + seq![']'])));
        lemma_subrange_split(s, i, seq![','], e + (rest + seq![']']));
        lemma_subrange_split(s, i + 1, e, rest + seq![']']);
        lemma_index_of_eq(s, i + 1 + e.len(), rest + seq![']']);
        assert(s[i + 1 + e.len() + 0] == (rest + seq![']'])[0]);
        if vs.drop_first().len() == 0 {
            assert((rest + seq![']'])[0] == ']');
        } else {
            assert(rest == seq![','] + dec_digits(vs.drop_first().first() as nat)
                + enc_num_tail(vs.drop_first().drop_first()));
            assert((rest + seq![']'])[0] == rest[0]);
            assert(rest[0] == ',');
        }
        assert(!is_digit(s[i + 1 + e.len()]));
        lemma_dec_digits_are_digits(vs.first());
        lemma_p_u64(s, i + 1, vs.first());
        let j = i + 1 + e.len();
        lemma_p_num_rest_run(s, j, acc.push(vs.first()), vs.drop_first());
        assert(acc.push(vs.first()) + vs.drop_first() =~= acc + vs);
    }
}

pub proof fn lemma_p_num_list_run(s: Seq<char>, i: int, vs: Seq<u64>)
    requires
        0 <= i,
        i + enc_num_list(vs).len() <= s.len(),
        s.subrange(i, i + enc_num_list(vs).len()) == enc_num_list(vs),
    ensures
        p_num_list(s, i) == Some((vs, i + enc_num_list(vs).len())),
{
    lemma_index_of_eq(s, i, enc_num_list(vs));
    if vs.len() == 0 {
        assert(s[i + 0] == enc_num_list(vs)[0]);
        assert(s[i + 1] == enc_num_list(vs)[1]);
        assert(s[i] == '[' && s[i + 1] == ']');
    } else {
        let e = dec_digits(vs.first() as nat);
        let rest = enc_num_tail(vs.drop_first());
        assert(enc_num_list(vs) == seq!['['] + e + rest + seq![']']);
        assert(s[i + 0] == enc_num_list(vs)[0]);
        assert(s[i] == '[');
        assert(enc_num_list(vs) =~= seq!['['] + (e + (rest + seq![']'])));
        lemma_subrange_split(s, i, seq!['['], e + (rest + seq![']']));
        lemma_subrange_split(s, i + 1, e, rest + seq![']']);
        lemma_index_of_eq(s, i + 1, e);
        assert(s[i + 1 + 0] == e[0]);
        lemma_dec_digits_are_digits(vs.first());
        assert(is_digit(e[0]));
        assert(s[i + 1] != ']');
        lemma_index_of_eq(s, i + 1 + e.len(), rest + seq![']']);
        assert(s[i + 1 + e.len() + 0] == (rest + seq![']'])[0]);
        if vs.drop_first().len() == 0 {
            assert((rest + seq![']'])[0] == ']');
        } else {
            assert((rest + seq![']'])[0] == rest[0]);
        }
        assert(!is_digit(s[i + 1 + e.len()]));
        lemma_p_u64(s, i + 1, vs.first());
        let j = i + 1 + e.len();
        lemma_p_num_rest_run(s, j, seq![vs.first()], vs.drop_first());
        assert(seq![vs.first()] + vs.drop_first() =~= vs);
    }
}

#[verifier::rlimit(100)]
#[verifier::spinoff_prover]
pub proof fn lemma_p_song_rest_run(s: Seq<char>, i: int, acc: Seq<SongView>, vs: Seq<SongView>)
    requires
        0 <= i,
        i + enc_song_tail(vs).len() + 1 <= s.len(),
        s.subrange(i, i + enc_song_tail(vs).len() + 1) == enc_song_tail(vs) + seq![']'],
    ensures
        p_song_rest(s, i, acc) == Some((acc + vs, i + enc_song_tail(vs).len() + 1)),
    decreases vs.len(),
{
    let tail = enc_song_tail(vs);
    lemma_index_of_eq(s, i, tail + seq![']']);
    if vs.len() == 0 {
        assert(s[i + 0] == (tail + seq![']'])[0]);
        assert((tail + seq![']'])[0] == ']');
        assert(acc + vs =~= acc);
    } else {
        let e = enc_song(vs.first());
        let rest = enc_song_tail(vs.drop_first());
        assert(tail == seq![','] + e + rest);
        assert(s[i + 0] == (tail + seq![']'])[0]);
        assert((tail + seq![']'])[0] == (seq![','] + e + rest)[0]);
        assert(s[i] == ',');
        assert(tail + seq![']'] =~= seq![','] + (e + (rest + seq![']'])));
        lemma_subrange_split(s, i, seq![','], e + (rest + seq![']']));
        lemma_subrange_split(s, i + 1, e, rest + seq![']']);
        lemma_index_of_eq(s, i + 1 + e.len(), rest + seq![']']);
        assert(s[i + 1 + e.len() + 0] == (rest + seq![']'])[0]);
        if vs.drop_first().len() == 0 {
            assert((rest + seq![']'])[0] == ']');
        } else {
            assert(rest == seq![','] + enc_song(vs.drop_first().first())
                + enc_song_tail(vs.drop_first().drop_first()));
            assert((rest + seq![']'])[0] == rest[0]);
            assert(rest[0] == ',');
        }
        lemma_enc_song_head(vs.first());
        lemma_p_song(s, i + 1, vs.first());
        let j = i + 1 + e.len();
        lemma_p_song_rest_run(s, j, acc.push(vs.first()), vs.drop_first());
        assert(acc.push(vs.first()) + vs.drop_first() =~= acc + vs);
    }
}

#[verifier::rlimit(100)]
#[verifier::spinoff_prover]
pub proof fn lemma_p_song_list_run(s: Seq<char>, i: int, vs: Seq<SongView>)
    requires
        0 <= i,
        i + enc_song_list(vs).len() <= s.len(),
        s.subrange(i, i + enc_song_list(vs).len()) == enc_song_list(vs),
    ensures
        p_song_list(s, i) == Some((vs, i + enc_song_list(vs).len())),
{
    lemma_index_of_eq(s, i, enc_song_list(vs));
    if vs.len() == 0 {
        assert(s[i + 0] == enc_song_list(vs)[0]);
        assert(s[i + 1] == enc_song_list(vs)[1]);
        assert(s[i] == '[' && s[i + 1] == ']');
    } else {
        let e = enc_song(vs.first());
        let rest = enc_song_tail(vs.drop_first());
        assert(enc_song_list(vs) == seq!['['] + e + rest + seq![']']);
        assert(s[i + 0] == enc_song_list(vs)[0]);
        assert(s[i] == '[');
        assert(enc_song_list(vs) =~= seq!['['] + (e + (rest + seq![']'])));
        lemma_subrange_split(s, i, seq!['['], e + (rest + seq![']']));
        lemma_subrange_split(s, i + 1, e, rest + seq![']']);
        lemma_index_of_eq(s, i + 1, e);
        lemma_enc_song_head(vs.first());
        assert(s[i + 1 + 0] == e[0]);
        assert(s[i + 1] != ']');
        lemma_index_of_eq(s, i + 1 + e.len(), rest + seq![']']);
        assert(s[i + 1 + e.len() + 0] == (rest + seq![']'])[0]);
        if vs.drop_first().len() == 0 {
            assert((rest + seq![']'])[0] == ']');
        } else {
            assert((rest + seq![']'])[0] == rest[0]);
        }
        lemma_p_song(s, i + 1, vs.first());
        let j = i + 1 + e.len();
        lemma_p_song_rest_run(s, j, seq![vs.first()], vs.drop_first());
        assert(seq![vs.first()] + vs.drop_first() =~= vs);
    }
}

pub proof fn lemma_p_playlist(s: Seq<char>, i: int, v: PlaylistView)
    requires
        0 <= i,
        i + enc_playlist(v).len() <= s.len(),
        s.subrange(i, i + enc_playlist(v).len()) == enc_playlist(v),
    ensures
        p_playlist(s, i) == Some(((PlaylistView { id: v.id, name: v.name, image: v.image, songs: v.songs }), i + enc_playlist(v).len())),
{
    reveal(enc_playlist);
    let e0 = t_id();
    let e1 = enc_str(v.id);
    let e2 = t_name();
    let e3 = enc_str(v.name);
    let e4 = t_image();
    let e5 = enc_opt_str(v.image);
    let e6 = t_songs();
    let e7 = enc_num_list(v.songs);
    let e8 = t_rbrace();
    assert(enc_playlist(v) =~= e0 + (e1 + (e2 + (e3 + (e4 + (e5 + (e6 + (e7 + (e8)))))))));
    let i0 = i;
    lemma_subrange_split(s, i0, e0, e1 + (e2 + (e3 + (e4 + (e5 + (e6 + (e7 + (e8))))))));
    lemma_p_lit(s, i0, e0);
    let i1 = i0 + e0.len();
    lemma_subrange_split(s, i1, e1, e2 + (e3 + (e4 + (e5 + (e6 + (e7 + (e8)))))));
    lemma_p_str(s, i1, v.id);
    let i2 = i1 + e1.len();
    lemma_subrange_split(s, i2, e2, e3 + (e4 + (e5 + (e6 + (e7 + (e8))))));
    lemma_p_lit(s, i2, e2);
    let i3 = i2 + e2.len();
    lemma_subrange_split(s, i3, e3, e4 + (e5 + (e6 + (e7 + (e8)))));
    lemma_p_str(s, i3, v.name);
    let i4 = i3 + e3.len();
    lemma_subrange_split(s, i4, e4, e5 + (e6 + (e7 + (e8))));
    lemma_p_lit(s, i4, e4);
    let i5 = i4 + e4.len();
    lemma_subrange_split(s, i5, e5, e6 + (e7 + (e8)));
    lemma_p_opt_str(s, i5, v.image);
    let i6 = i5 + e5.len();
    lemma_subrange_split(s, i6, e6, e7 + (e8));
    lemma_p_lit(s, i6, e6);
    let i7 = i6 + e6.len();
    lemma_subrange_split(s, i7, e7, e8);
    lemma_p_num_list_run(s, i7, v.songs);
    let i8 = i7 + e7.len();
    lemma_p_lit(s, i8, e8);
    let i9 = i8 + e8.len();
    assert(i9 == i + enc_playlist(v).len());
}

#[verifier::rlimit(100)]
#[verifier::spinoff_prover]
pub proof fn lemma_p_playlist_rest_run(s: Seq<char>, i: int, acc: Seq<PlaylistView>, vs: Seq<PlaylistView>)
    requires
        0 <= i,
        i + enc_playlist_tail(vs).len() + 1 <= s.len(),
        s.subrange(i, i + enc_playlist_tail(vs).len() + 1) == enc_playlist_tail(vs) + seq![']'],
    ensures
        p_playlist_rest(s, i, acc) == Some((acc + vs, i + enc_playlist_tail(vs).len() + 1)),
    decreases vs.len(),
{
    let tail = enc_playlist_tail(vs);
    lemma_index_of_eq(s, i, tail + seq![']']);
    if vs.len() == 0 {
        assert(s[i + 0] == (tail + seq![']'])[0]);
        assert((tail + seq![']'])[0] == ']');
        assert(acc + vs =~= acc);
    } else {
        let e = enc_playlist(vs.first());
        let rest = enc_playlist_tail(vs.drop_first());
        assert(tail == seq![','] + e + rest);
        assert(s[i + 0] == (tail + seq![']'])[0]);
        assert((tail + seq![']'])[0] == (seq![','] + e + rest)[0]);
        assert(s[i] == ',');
        assert(tail + seq![']'] =~= seq![','] + (e + (rest + seq![']'])));
        lemma_subrange_split(s, i, seq![','], e + (rest + seq![']']));
        lemma_subrange_split(s, i + 1, e, rest + seq![']']);
        lemma_index_of_eq(s, i + 1 + e.len(), rest + seq![']']);
        assert(s[i + 1 + e.len() + 0] == (rest + seq![']'])[0]);
        if vs.drop_first().len() == 0 {
            assert((rest + seq![']'])[0] == ']');
        } else {
            assert(rest == seq![','] + enc_playlist(vs.drop_first().first())
                + enc_playlist_tail(vs.drop_first().drop_first()));
            assert((rest + seq![']'])[0] == rest[0]);
            assert(rest[0] == ',');
        }
        lemma_enc_playlist_head(vs.first());
        lemma_p_playlist(s, i + 1, vs.first());
        let j = i + 1 + e.len();
        lemma_p_playlist_rest_run(s, j, acc.push(vs.first()), vs.drop_first());
        assert(acc.push(vs.first()) + vs.drop_first() =~= acc + vs);
    }
}

#[verifier::rlimit(100)]
#[verifier::spinoff_prover]
pub proof fn lemma_p_playlist_list_run(s: Seq<char>, i: int, vs: Seq<PlaylistView>)
    requires
        0 <= i,
        i + enc_playlist_list(vs).len() <= s.len(),
        s.subrange(i, i + enc_playlist_list(vs).len()) == enc_playlist_list(vs),
    ensures
        p_playlist_list(s, i) == Some((vs, i + enc_playlist_list(vs).len())),
{
    lemma_index_of_eq(s, i, enc_playlist_list(vs));
    if vs.len() == 0 {
        assert(s[i + 0] == enc_playlist_list(vs)[0]);
        assert(s[i + 1] == enc_playlist_list(vs)[1]);
        assert(s[i] == '[' && s[i + 1] == ']');
    } else {
        let e = enc_playlist(vs.first());
        let rest = enc_playlist_tail(vs.drop_first());
        assert(enc_playlist_list(vs) == seq!['['] + e + rest + seq![']']);
        assert(s[i + 0] == enc_playlist_list(vs)[0]);
        assert(s[i] == '[');
        assert(enc_playlist_list(vs) =~= seq!['['] + (e + (rest + seq![']'])));
        lemma_subrange_split(s, i, seq!['['], e + (rest + seq![']']));
        lemma_subrange_split(s, i + 1, e, rest + seq![']']);
        lemma_index_of_eq(s, i + 1, e);
        lemma_enc_playlist_head(vs.first());
        assert(s[i + 1 + 0] == e[0]);
        assert(s[i + 1] != ']');
        lemma_index_of_eq(s, i + 1 + e.len(), rest + seq![']']);
        assert(s[i + 1 + e.len() + 0] == (rest + seq![']'])[0]);
        if vs.drop_first().len() == 0 {
            assert((rest + seq![']'])[0] == ']');
        } else {
            assert((rest + seq![']'])[0] == rest[0]);
        }
        lemma_p_playlist(s, i + 1, vs.first());
        let j = i + 1 + e.len();
        lemma_p_playlist_rest_run(s, j, seq![vs.first()], vs.drop_first());
        assert(seq![vs.first()] + vs.drop_first() =~= vs);
    }
}

pub proof fn lemma_p_album_rec(s: Seq<char>, i: int, v: AlbumHashedView)
    requires
        0 <= i,
        i + enc_album_rec(v).len() <= s.len(),
        s.subrange(i, i + enc_album_rec(v).len()) == enc_album_rec(v),
    ensures
        p_album_rec(s, i) == Some(((AlbumHashedView { album: v.album, tracks: v.tracks }), i + enc_album_rec(v).len())),
{
    reveal(enc_album_rec);
    let e0 = t_album_key();
    let e1 = enc_album_info(v.album);
    let e2 = t_tracks();
    let e3 = enc_num_list(v.tracks);
    let e4 = t_rbrace();
    assert(enc_album_rec(v) =~= e0 + (e1 + (e2 + (e3 + (e4)))));
    let i0 = i;
    lemma_subrange_split(s, i0, e0, e1 + (e2 + (e3 + (e4))));
    lemma_p_lit(s, i0, e0);
    let i1 = i0 + e0.len();
    lemma_subrange_split(s, i1, e1, e2 + (e3 + (e4)));
    lemma_p_album_info(s, i1, v.album);
    let i2 = i1 + e1.len();
    lemma_subrange_split(s, i2, e2, e3 + (e4));
    lemma_p_lit(s, i2, e2);
    let i3 = i2 + e2.len();
    lemma_subrange_split(s, i3, e3, e4);
    lemma_p_num_list_run(s, i3, v.tracks);
    let i4 = i3 + e3.len();
    lemma_p_lit(s, i4, e4);
    let i5 = i4 + e4.len();
    assert(i5 == i + enc_album_rec(v).len());
}

#[verifier::rlimit(100)]
#[verifier::spinoff_prover]
pub proof fn lemma_p_album_rest_run(s: Seq<char>, i: int, acc: Seq<AlbumHashedView>, vs: Seq<AlbumHashedView>)
    requires
        0 <= i,
        i + enc_album_tail(vs).len() + 1 <= s.len(),
        s.subrange(i, i + enc_album_tail(vs).len() + 1) == enc_album_tail(vs) + seq![']'],
    ensures
        p_album_rest(s, i, acc) == Some((acc + vs, i + enc_album_tail(vs).len() + 1)),
    decreases vs.len(),
{
    let tail = enc_album_tail(vs);
    lemma_index_of_eq(s, i, tail + seq![']']);
    if vs.len() == 0 {
        assert(s[i + 0] == (tail + seq![']'])[0]);
        assert((tail + seq![']'])[0] == ']');
        assert(acc + vs =~= acc);
    } else {
        let e = enc_album_rec(vs.first());
        let rest = enc_album_tail(vs.drop_first());
        assert(tail == seq![','] + e + rest);
        assert(s[i + 0] == (tail + seq![']'])[0]);
        assert((tail + seq![']'])[0] == (seq![','] + e + rest)[0]);
        assert(s[i] == ',');
        assert(tail + seq![']'] =~= seq![','] + (e + (rest + seq![']'])));
        lemma_subrange_split(s, i, seq![','], e + (rest + seq![']']));
        lemma_subrange_split(s, i + 1, e, rest + seq![']']);
        lemma_index_of_eq(s, i + 1 + e.len(), rest + seq![']']);
        assert(s[i + 1 + e.len() + 0] == (rest + seq![']'])[0]);
        if vs.drop_first().len() == 0 {
            assert((rest + seq![']'])[0] == ']');
        } else {
            assert(rest == seq![','] + enc_album_rec(vs.drop_first().first())
                + enc_album_tail(vs.drop_first().drop_first()));
            assert((rest + seq![']'])[0] == rest[0]);
            assert(rest[0] == ',');
        }
        lemma_enc_album_rec_head(vs.first());
        lemma_p_album_rec(s, i + 1, vs.first());
        let j = i + 1 + e.len();
        lemma_p_album_rest_run(s, j, acc.push(vs.first()), vs.drop_first());
        assert(acc.push(vs.first()) + vs.drop_first() =~= acc + vs);
    }
}

#[verifier::rlimit(100)]
#[verifier::spinoff_prover]
pub proof fn lemma_p_album_list_run(s: Seq<char>, i: int, vs: Seq<AlbumHashedView>)
    requires
        0 <= i,
        i + enc_album_list(vs).len() <= s.len(),
        s.subrange(i, i + enc_album_list(vs).len()) == enc_album_list(vs),
    ensures
        p_album_list(s, i) == Some((vs, i + enc_album_list(vs).len())),
{
    lemma_index_of_eq(s, i, enc_album_list(vs));
    if vs.len() == 0 {
        assert(s[i + 0] == enc_album_list(vs)[0]);
        assert(s[i + 1] == enc_album_list(vs)[1]);
        assert(s[i] == '[' && s[i + 1] == ']');
    } else {
        let e = enc_album_rec(vs.first());
        let rest = enc_album_tail(vs.drop_first());
        assert(enc_album_list(vs) == seq!['['] + e + rest + seq![']']);
        assert(s[i + 0] == enc_album_list(vs)[0]);
        assert(s[i] == '[');
        assert(enc_album_list(vs) =~= seq!['['] + (e + (rest + seq![']'])));
        lemma_subrange_split(s, i, seq!['['], e + (rest + seq![']']));
        lemma_subrange_split(s, i + 1, e, rest + seq![']']);
        lemma_index_of_eq(s, i + 1, e);
        lemma_enc_album_rec_head(vs.first());
        assert(s[i + 1 + 0] == e[0]);
        assert(s[i + 1] != ']');
        lemma_index_of_eq(s, i + 1 + e.len(), rest + seq![']']);
        assert(s[i + 1 + e.len() + 0] == (rest + seq![']'])[0]);
        if vs.drop_first().len() == 0 {
            assert((rest + seq![']'])[0] == ']');
        } else {
            assert((rest + seq![']'])[0] == rest[0]);
        }
        lemma_p_album_rec(s, i + 1, vs.first());
        let j = i + 1 + e.len();
        lemma_p_album_rest_run(s, j, seq![vs.first()], vs.drop_first());
        assert(seq![vs.first()] + vs.drop_first() =~= vs);
    }
}

#[verifier::rlimit(100)]
#[verifier::spinoff_prover]
pub proof fn lemma_p_doc(s: Seq<char>, i: int, d: LibraryDocView)
    requires
        0 <= i,
        i + enc_doc(d).len() <= s.len(),
        s.subrange(i, i + enc_doc(d).len()) == enc_doc(d),
    ensures
        p_doc(s, i) == Some((doc_songs(d.tracks), d.playlists, d.albums, i + enc_doc(d).len())),
{
    let e0 = t_doc_tracks();
    let e1 = enc_song_list(doc_songs(d.tracks));
    let e2 = t_doc_playlists();
    let e3 = enc_playlist_list(d.playlists);
    let e4 = t_doc_albums();
    let e5 = enc_album_list(d.albums);
    let e6 = t_rbrace();
    assert(enc_doc(d) =~= e0 + (e1 + (e2 + (e3 + (e4 + (e5 + e6))))));
    let i0 = i;
    lemma_subrange_split(s, i0, e0, e1 + (e2 + (e3 + (e4 + (e5 + e6)))));
    lemma_p_lit(s, i0, e0);
    let i1 = i0 + e0.len();
    lemma_subrange_split(s, i1, e1, e2 + (e3 + (e4 + (e5 + e6))));
    lemma_p_song_list_run(s, i1, doc_songs(d.tracks));
    let i2 = i1 + e1.len();
    lemma_subrange_split(s, i2, e2, e3 + (e4 + (e5 + e6)));
    lemma_p_lit(s, i2, e2);
    let i3 = i2 + e2.len();
    lemma_subrange_split(s, i3, e3, e4 + (e5 + e6));
    lemma_p_playlist_list_run(s, i3, d.playlists);
    let i4 = i3 + e3.len();
    lemma_subrange_split(s, i4, e4, e5 + e6);
    lemma_p_lit(s, i4, e4);
    let i5 = i4 + e4.len();
    lemma_subrange_split(s, i5, e5, e6);
    lemma_p_album_list_run(s, i5, d.albums);
    let i6 = i5 + e5.len();
    lemma_p_lit(s, i6, e6);
    let i7 = i6 + e6.len();
    assert(i7 == i + enc_doc(d).len());
}

/// Reading back the written document restores it exactly: the round trip
/// over the library's persisted form is the identity on well-formed
/// documents.
pub proof fn lemma_doc_round_trip(d: LibraryDocView)
    requires
        entries_wf(d.tracks),
    ensures
        spec_decode(enc_doc(d)) == Some(d),
{
    let s = enc_doc(d);
    assert(s.subrange(0, s.len() as int) =~= s);
    lemma_p_doc(s, 0, d);
    let songs = doc_songs(d.tracks);
    let rebuilt = songs.map_values(
        |v: SongView| CachedHashSongView { hash: song_hash(v), song: v },
    );
    assert(rebuilt =~= d.tracks);
    assert(spec_decode(s) == Some((LibraryDocView {
        tracks: rebuilt,
        playlists: d.playlists,
        albums: d.albums,
    })));
    assert((LibraryDocView { tracks: rebuilt, playlists: d.playlists, albums: d.albums }) == d);
}

fn push_t_null(out: &mut Vec<char>)
    ensures
        final(out)@ == old(out)@ + t_null(),
{
    out.push('n');
    out.push('u');
    out.push('l');
    out.push('l');
    assert(out@ =~= old(out)@ + t_null());
}

fn eat_t_null(v: &Vec<char>, i: usize) -> (r: Option<usize>)
    requires
        i <= v@.len(),
    ensures
        match r {
            Some(j) => j == i + 4 && j <= v@.len()
                && p_lit(v@, i as int, t_null()) == Some(j as int),
            None => p_lit(v@, i as int, t_null()) is None,
        },
{
    if v.len() - i >= 4 && v[i + 0] == 'n' && v[i + 1] == 'u' && v[i + 2] == 'l' && v[i + 3] == 'l' {
        proof {
            assert(v@.subrange(i as int, i as int + 4) =~= t_null());
        }
        Some(i + 4)
    } else {
        proof {
            if i as int + t_null().len() <= v@.len()
                && v@.subrange(i as int, i as int + t_null().len()) == t_null() {
                lemma_index_of_eq(v@, i as int, t_null());
                assert(v@[i as int + 0] == t_null()[0]);
                assert(v@[i as int + 1] == t_null()[1]);
                assert(v@[i as int + 2] == t_null()[2]);
                assert(v@[i as int + 3] == t_null()[3]);
                assert(false);
            }
        }
        None
    }
}

fn push_t_song_path(out: &mut Vec<char>)
    ensures
        final(out)@ == old(out)@ + t_song_path(),
{
    out.push('{');
    out.push('"');
    out.push('p');
    out.push('a');
    out.push('t');
    out.push('h');
    out.push('"');
    out.push(':');
    assert(out@ =~= old(out)@ + t_song_path());
}

fn eat_t_song_path(v: &Vec<char>, i: usize) -> (r: Option<usize>)
    requires
        i <= v@.len(),
    ensures
        match r {
            Some(j) => j == i + 8 && j <= v@.len()
                && p_lit(v@, i as int, t_song_path()) == Some(j as int),
            None => p_lit(v@, i as int, t_song_path()) is None,
        },
{
    if v.len() - i >= 8 && v[i + 0] == '{' && v[i + 1] == '"' && v[i + 2] == 'p' && v[i + 3] == 'a' && v[i + 4] == 't' && v[i + 5] == 'h' && v[i + 6] == '"' && v[i + 7] == ':' {
        proof {
            assert(v@.subrange(i as int, i as int + 8) =~= t_song_path());
        }
        Some(i + 8)
    } else {
        proof {
            if i as int + t_song_path().len() <= v@.len()
                && v@.subrange(i as int, i as int + t_song_path().len()) == t_song_path() {
                lemma_index_of_eq(v@, i as int, t_song_path());
                assert(v@[i as int + 0] == t_song_path()[0]);
                assert(v@[i as int + 1] == t_song_path()[1]);
                assert(v@[i as int + 2] == t_song_path()[2]);
                assert(v@[i as int + 3] == t_song_path()[3]);
                assert(v@[i as int + 4] == t_song_path()[4]);
                assert(v@[i as int + 5] == t_song_path()[5]);
                assert(v@[i as int + 6] == t_song_path()[6]);
                assert(v@[i as int + 7] == t_song_path()[7]);
                assert(false);
            }
        }
        None
    }
}

fn push_t_title(out: &mut Vec<char>)
    ensures
        final(out)@ == old(out)@ + t_title(),
{
    out.push(',');
    out.push('"');
    out.push('t');
    out.push('i');
    out.push('t');
    out.push('l');
    out.push('e');
    out.push('"');
    out.push(':');
    assert(out@ =~= old(out)@ + t_title());
}

fn eat_t_title(v: &Vec<char>, i: usize) -> (r: Option<usize>)
    requires
        i <= v@.len(),
    ensures
        match r {
            Some(j) => j == i + 9 && j <= v@.len()
                && p_lit(v@, i as int, t_title()) == Some(j as int),
            None => p_lit(v@, i as int, t_title()) is None,
        },
{
    if v.len() - i >= 9 && v[i + 0] == ',' && v[i + 1] == '"' && v[i + 2] == 't' && v[i + 3] == 'i' && v[i + 4] == 't' && v[i + 5] == 'l' && v[i + 6] == 'e' && v[i + 7] == '"' && v[i + 8] == ':' {
        proof {
            assert(v@.subrange(i as int, i as int + 9) =~= t_title());
        }
        Some(i + 9)
    } else {
        proof {
            if i as int + t_title().len() <= v@.len()
                && v@.subrange(i as int, i as int + t_title().len()) == t_title() {
                lemma_index_of_eq(v@, i as int, t_title());
                assert(v@[i as int + 0] == t_title()[0]);
                assert(v@[i as int + 1] == t_title()[1]);
                assert(v@[i as int + 2] == t_title()[2]);
                assert(v@[i as int + 3] == t_title()[3]);
                assert(v@[i as int + 4] == t_title()[4]);
                assert(v@[i as int + 5] == t_title()[5]);
                assert(v@[i as int + 6] == t_title()[6]);
                assert(v@[i as int + 7] == t_title()[7]);
                assert(v@[i as int + 8] == t_title()[8]);
                assert(false);
            }
        }
        None
    }
}

fn push_t_artist(out: &mut Vec<char>)
    ensures
        final(out)@ == old(out)@ + t_artist(),
{
    out.push(',');
    out.push('"');
    out.push('a');
    out.push('r');
    out.push('t');
    out.push('i');
    out.push('s');
    out.push('t');
    out.push('"');
    out.push(':');
    assert(out@ =~= old(out)@ + t_artist());
}

fn eat_t_artist(v: &Vec<char>, i: usize) -> (r: Option<usize>)
    requires
        i <= v@.len(),
    ensures
        match r {
            Some(j) => j == i + 10 && j <= v@.len()
                && p_lit(v@, i as int, t_artist()) == Some(j as int),
            None => p_lit(v@, i as int, t_artist()) is None,
        },
{
    if v.len() - i >= 10 && v[i + 0] == ',' && v[i + 1] == '"' && v[i + 2] == 'a' && v[i + 3] == 'r' && v[i + 4] == 't' && v[i + 5] == 'i' && v[i + 6] == 's' && v[i + 7] == 't' && v[i + 8] == '"' && v[i + 9] == ':' {
        proof {
            assert(v@.subrange(i as int, i as int + 10) =~= t_artist());
        }
        Some(i + 10)
    } else {
        proof {
            if i as int + t_artist().len() <= v@.len()
                && v@.subrange(i as int, i as int + t_artist().len()) == t_artist() {
                lemma_index_of_eq(v@, i as int, t_artist());
                assert(v@[i as int + 0] == t_artist()[0]);
                assert(v@[i as int + 1] == t_artist()[1]);
                assert(v@[i as int + 2] == t_artist()[2]);
                assert(v@[i as int + 3] == t_artist()[3]);
                assert(v@[i as int + 4] == t_artist()[4]);
                assert(v@[i as int + 5] == t_artist()[5]);
                assert(v@[i as int + 6] == t_artist()[6]);
                assert(v@[i as int + 7] == t_artist()[7]);
                assert(v@[i as int + 8] == t_artist()[8]);
                assert(v@[i as int + 9] == t_artist()[9]);
                assert(false);
            }
        }
        None
    }
}

fn push_t_album(out: &mut Vec<char>)
    ensures
        final(out)@ == old(out)@ + t_album(),
{
    out.push(',');
    out.push('"');
    out.push('a');
    out.push('l');
    out.push('b');
    out.push('u');
    out.push('m');
    out.push('"');
    out.push(':');
    assert(out@ =~= old(out)@ + t_album());
}

fn eat_t_album(v: &Vec<char>, i: usize) -> (r: Option<usize>)
    requires
        i <= v@.len(),
    ensures
        match r {
            Some(j) => j == i + 9 && j <= v@.len()
                && p_lit(v@, i as int, t_album()) == Some(j as int),
            None => p_lit(v@, i as int, t_album()) is None,
        },
{
    if v.len() - i >= 9 && v[i + 0] == ',' && v[i + 1] == '"' && v[i + 2] == 'a' && v[i + 3] == 'l' && v[i + 4] == 'b' && v[i + 5] == 'u' && v[i + 6] == 'm' && v[i + 7] == '"' && v[i + 8] == ':' {
        proof {
            assert(v@.subrange(i as int, i as int + 9) =~= t_album());
        }
        Some(i + 9)
    } else {
        proof {
            if i as int + t_album().len() <= v@.len()
                && v@.subrange(i as int, i as int + t_album().len()) == t_album() {
                lemma_index_of_eq(v@, i as int, t_album());
                assert(v@[i as int + 0] == t_album()[0]);
                assert(v@[i as int + 1] == t_album()[1]);
                assert(v@[i as int + 2] == t_album()[2]);
                assert(v@[i as int + 3] == t_album()[3]);
                assert(v@[i as int + 4] == t_album()[4]);
                assert(v@[i as int + 5] == t_album()[5]);
                assert(v@[i as int + 6] == t_album()[6]);
                assert(v@[i as int + 7] == t_album()[7]);
                assert(v@[i as int + 8] == t_album()[8]);
                assert(false);
            }
        }
        None
    }
}

fn push_t_track(out: &mut Vec<char>)
    ensures
        final(out)@ == old(out)@ + t_track(),
{
    out.push(',');
    out.push('"');
    out.push('t');
    out.push('r');
    out.push('a');
    out.push('c');
    out.push('k');
    out.push('"');
    out.push(':');
    assert(out@ =~= old(out)@ + t_track());
}

fn eat_t_track(v: &Vec<char>, i: usize) -> (r: Option<usize>)
    requires
        i <= v@.len(),
    ensures
        match r {
            Some(j) => j == i + 9 && j <= v@.len()
                && p_lit(v@, i as int, t_track()) == Some(j as int),
            None => p_lit(v@, i as int, t_track()) is None,
        },
{
    if v.len() - i >= 9 && v[i + 0] == ',' && v[i + 1] == '"' && v[i + 2] == 't' && v[i + 3] == 'r' && v[i + 4] == 'a' && v[i + 5] == 'c' && v[i + 6] == 'k' && v[i + 7] == '"' && v[i + 8] == ':' {
        proof {
            assert(v@.subrange(i as int, i as int + 9) =~= t_track());
        }
        Some(i + 9)
    } else {
        proof {
            if i as int + t_track().len() <= v@.len()
                && v@.subrange(i as int, i as int + t_track().len()) == t_track() {
                lemma_index_of_eq(v@, i as int, t_track());
                assert(v@[i as int + 0] == t_track()[0]);
                assert(v@[i as int + 1] == t_track()[1]);
                assert(v@[i as int + 2] == t_track()[2]);
                assert(v@[i as int + 3] == t_track()[3]);
                assert(v@[i as int + 4] == t_track()[4]);
                assert(v@[i as int + 5] == t_track()[5]);
                assert(v@[i as int + 6] == t_track()[6]);
                assert(v@[i as int + 7] == t_track()[7]);
                assert(v@[i as int + 8] == t_track()[8]);
                assert(false);
            }
        }
        None
    }
}

fn push_t_id(out: &mut Vec<char>)
    ensures
        final(out)@ == old(out)@ + t_id(),
{
    out.push('{');
    out.push('"');
    out.push('i');
    out.push('d');
    out.push('"');
    out.push(':');
    assert(out@ =~= old(out)@ + t_id());
}

fn eat_t_id(v: &Vec<char>, i: usize) -> (r: Option<usize>)
    requires
        i <= v@.len(),
    ensures
        match r {
            Some(j) => j == i + 6 && j <= v@.len()
                && p_lit(v@, i as int, t_id()) == Some(j as int),
            None => p_lit(v@, i as int, t_id()) is None,
        },
{
    if v.len() - i >= 6 && v[i + 0] == '{' && v[i + 1] == '"' && v[i + 2] == 'i' && v[i + 3] == 'd' && v[i + 4] == '"' && v[i + 5] == ':' {
        proof {
            assert(v@.subrange(i as int, i as int + 6) =~= t_id());
        }
        Some(i + 6)
    } else {
        proof {
            if i as int + t_id().len() <= v@.len()
                && v@.subrange(i as int, i as int + t_id().len()) == t_id() {
                lemma_index_of_eq(v@, i as int, t_id());
                assert(v@[i as int + 0] == t_id()[0]);
                assert(v@[i as int + 1] == t_id()[1]);
                assert(v@[i as int + 2] == t_id()[2]);
                assert(v@[i as int + 3] == t_id()[3]);
                assert(v@[i as int + 4] == t_id()[4]);
                assert(v@[i as int + 5] == t_id()[5]);
                assert(false);
            }
        }
        None
    }
}

fn push_t_name(out: &mut Vec<char>)
    ensures
        final(out)@ == old(out)@ + t_name(),
{
    out.push(',');
    out.push('"');
    out.push('n');
    out.push('a');
    out.push('m');
    out.push('e');
    out.push('"');
    out.push(':');
    assert(out@ =~= old(out)@ + t_name());
}

fn eat_t_name(v: &Vec<char>, i: usize) -> (r: Option<usize>)
    requires
        i <= v@.len(),
    ensures
        match r {
            Some(j) => j == i + 8 && j <= v@.len()
                && p_lit(v@, i as int, t_name()) == Some(j as int),
            None => p_lit(v@, i as int, t_name()) is None,
        },
{
    if v.len() - i >= 8 && v[i + 0] == ',' && v[i + 1] == '"' && v[i + 2] == 'n' && v[i + 3] == 'a' && v[i + 4] == 'm' && v[i + 5] == 'e' && v[i + 6] == '"' && v[i + 7] == ':' {
        proof {
            assert(v@.subrange(i as int, i as int + 8) =~= t_name());
        }
        Some(i + 8)
    } else {
        proof {
            if i as int + t_name().len() <= v@.len()
                && v@.subrange(i as int, i as int + t_name().len()) == t_name() {
                lemma_index_of_eq(v@, i as int, t_name());
                assert(v@[i as int + 0] == t_name()[0]);
                assert(v@[i as int + 1] == t_name()[1]);
                assert(v@[i as int + 2] == t_name()[2]);
                assert(v@[i as int + 3] == t_name()[3]);
                assert(v@[i as int + 4] == t_name()[4]);
                assert(v@[i as int + 5] == t_name()[5]);
                assert(v@[i as int + 6] == t_name()[6]);
                assert(v@[i as int + 7] == t_name()[7]);
                assert(false);
            }
        }
        None
    }
}

fn push_t_image(out: &mut Vec<char>)
    ensures
        final(out)@ == old(out)@ + t_image(),
{
    out.push(',');
    out.push('"');
    out.push('i');
    out.push('m');
    out.push('a');
    out.push('g');
    out.push('e');
    out.push('"');
    out.push(':');
    assert(out@ =~= old(out)@ + t_image());
}

fn eat_t_image(v: &Vec<char>, i: usize) -> (r: Option<usize>)
    requires
        i <= v@.len(),
    ensures
        match r {
            Some(j) => j == i + 9 && j <= v@.len()
                && p_lit(v@, i as int, t_image()) == Some(j as int),
            None => p_lit(v@, i as int, t_image()) is None,
        },
{
    if v.len() - i >= 9 && v[i + 0] == ',' && v[i + 1] == '"' && v[i + 2] == 'i' && v[i + 3] == 'm' && v[i + 4] == 'a' && v[i + 5] == 'g' && v[i + 6] == 'e' && v[i + 7] == '"' && v[i + 8] == ':' {
        proof {
            assert(v@.subrange(i as int, i as int + 9) =~= t_image());
        }
        Some(i + 9)
    } else {
        proof {
            if i as int + t_image().len() <= v@.len()
                && v@.subrange(i as int, i as int + t_image().len()) == t_image() {
                lemma_index_of_eq(v@, i as int, t_image());
                assert(v@[i as int + 0] == t_image()[0]);
                assert(v@[i as int + 1] == t_image()[1]);
                assert(v@[i as int + 2] == t_image()[2]);
                assert(v@[i as int + 3] == t_image()[3]);
                assert(v@[i as int + 4] == t_image()[4]);
                assert(v@[i as int + 5] == t_image()[5]);
                assert(v@[i as int + 6] == t_image()[6]);
                assert(v@[i as int + 7] == t_image()[7]);
                assert(v@[i as int + 8] == t_image()[8]);
                assert(false);
            }
        }
        None
    }
}

fn push_t_songs(out: &mut Vec<char>)
    ensures
        final(out)@ == old(out)@ + t_songs(),
{
    out.push(',');
    out.push('"');
    out.push('s');
    out.push('o');
    out.push('n');
    out.push('g');
    out.push('s');
    out.push('"');
    out.push(':');
    assert(out@ =~= old(out)@ + t_songs());
}

fn eat_t_songs(v: &Vec<char>, i: usize) -> (r: Option<usize>)
    requires
        i <= v@.len(),
    ensures
        match r {
            Some(j) => j == i + 9 && j <= v@.len()
                && p_lit(v@, i as int, t_songs()) == Some(j as int),
            None => p_lit(v@, i as int, t_songs()) is None,
        },
{
    if v.len() - i >= 9 && v[i + 0] == ',' && v[i + 1] == '"' && v[i + 2] == 's' && v[i + 3] == 'o' && v[i + 4] == 'n' && v[i + 5] == 'g' && v[i + 6] == 's' && v[i + 7] == '"' && v[i + 8] == ':' {
        proof {
            assert(v@.subrange(i as int, i as int + 9) =~= t_songs());
        }
        Some(i + 9)
    } else {
        proof {
            if i as int + t_songs().len() <= v@.len()
                && v@.subrange(i as int, i as int + t_songs().len()) == t_songs() {
                lemma_index_of_eq(v@, i as int, t_songs());
                assert(v@[i as int + 0] == t_songs()[0]);
                assert(v@[i as int + 1] == t_songs()[1]);
                assert(v@[i as int + 2] == t_songs()[2]);
                assert(v@[i as int + 3] == t_songs()[3]);
                assert(v@[i as int + 4] == t_songs()[4]);
                assert(v@[i as int + 5] == t_songs()[5]);
                assert(v@[i as int + 6] == t_songs()[6]);
                assert(v@[i as int + 7] == t_songs()[7]);
                assert(v@[i as int + 8] == t_songs()[8]);
                assert(false);
            }
        }
        None
    }
}

fn push_t_album_key(out: &mut Vec<char>)
    ensures
        final(out)@ == old(out)@ + t_album_key(),
{
    out.push('{');
    out.push('"');
    out.push('a');
    out.push('l');
    out.push('b');
    out.push('u');
    out.push('m');
    out.push('"');
    out.push(':');
    assert(out@ =~= old(out)@ + t_album_key());
}

fn eat_t_album_key(v: &Vec<char>, i: usize) -> (r: Option<usize>)
    requires
        i <= v@.len(),
    ensures
        match r {
            Some(j) => j == i + 9 && j <= v@.len()
                && p_lit(v@, i as int, t_album_key()) == Some(j as int),
            None => p_lit(v@, i as int, t_album_key()) is None,
        },
{
    if v.len() - i >= 9 && v[i + 0] == '{' && v[i + 1] == '"' && v[i + 2] == 'a' && v[i + 3] == 'l' && v[i + 4] == 'b' && v[i + 5] == 'u' && v[i + 6] == 'm' && v[i + 7] == '"' && v[i + 8] == ':' {
        proof {
            assert(v@.subrange(i as int, i as int + 9) =~= t_album_key());
        }
        Some(i + 9)
    } else {
        proof {
            if i as int + t_album_key().len() <= v@.len()
                && v@.subrange(i as int, i as int + t_album_key().len()) == t_album_key() {
                lemma_index_of_eq(v@, i as int, t_album_key());
                assert(v@[i as int + 0] == t_album_key()[0]);
                assert(v@[i as int + 1] == t_album_key()[1]);
                assert(v@[i as int + 2] == t_album_key()[2]);
                assert(v@[i as int + 3] == t_album_key()[3]);
                assert(v@[i as int + 4] == t_album_key()[4]);
                assert(v@[i as int + 5] == t_album_key()[5]);
                assert(v@[i as int + 6] == t_album_key()[6]);
                assert(v@[i as int + 7] == t_album_key()[7]);
                assert(v@[i as int + 8] == t_album_key()[8]);
                assert(false);
            }
        }
        None
    }
}

fn push_t_tracks(out: &mut Vec<char>)
    ensures
        final(out)@ == old(out)@ + t_tracks(),
{
    out.push(',');
    out.push('"');
    out.push('t');
    out.push('r');
    out.push('a');
    out.push('c');
    out.push('k');
    out.push('s');
    out.push('"');
    out.push(':');
    assert(out@ =~= old(out)@ + t_tracks());
}

fn eat_t_tracks(v: &Vec<char>, i: usize) -> (r: Option<usize>)
    requires
        i <= v@.len(),
    ensures
        match r {
            Some(j) => j == i + 10 && j <= v@.len()
                && p_lit(v@, i as int, t_tracks()) == Some(j as int),
            None => p_lit(v@, i as int, t_tracks()) is None,
        },
{
    if v.len() - i >= 10 && v[i + 0] == ',' && v[i + 1] == '"' && v[i + 2] == 't' && v[i + 3] == 'r' && v[i + 4] == 'a' && v[i + 5] == 'c' && v[i + 6] == 'k' && v[i + 7] == 's' && v[i + 8] == '"' && v[i + 9] == ':' {
        proof {
            assert(v@.subrange(i as int, i as int + 10) =~= t_tracks());
        }
        Some(i + 10)
    } else {
        proof {
            if i as int + t_tracks().len() <= v@.len()
                && v@.subrange(i as int, i as int + t_tracks().len()) == t_tracks() {
                lemma_index_of_eq(v@, i as int, t_tracks());
                assert(v@[i as int + 0] == t_tracks()[0]);
                assert(v@[i as int + 1] == t_tracks()[1]);
                assert(v@[i as int + 2] == t_tracks()[2]);
                assert(v@[i as int + 3] == t_tracks()[3]);
                assert(v@[i as int + 4] == t_tracks()[4]);
                assert(v@[i as int + 5] == t_tracks()[5]);
                assert(v@[i as int + 6] == t_tracks()[6]);
                assert(v@[i as int + 7] == t_tracks()[7]);
                assert(v@[i as int + 8] == t_tracks()[8]);
                assert(v@[i as int + 9] == t_tracks()[9]);
                assert(false);
            }
        }
        None
    }
}

fn push_t_doc_tracks(out: &mut Vec<char>)
    ensures
        final(out)@ == old(out)@ + t_doc_tracks(),
{
    out.push('{');
    out.push('"');
    out.push('t');
    out.push('r');
    out.push('a');
    out.push('c');
    out.push('k');
    out.push('s');
    out.push('"');
    out.push(':');
    assert(out@ =~= old(out)@ + t_doc_tracks());
}

fn eat_t_doc_tracks(v: &Vec<char>, i: usize) -> (r: Option<usize>)
    requires
        i <= v@.len(),
    ensures
        match r {
            Some(j) => j == i + 10 && j <= v@.len()
                && p_lit(v@, i as int, t_doc_tracks()) == Some(j as int),
            None => p_lit(v@, i as int, t_doc_tracks()) is None,
        },
{
    if v.len() - i >= 10 && v[i + 0] == '{' && v[i + 1] == '"' && v[i + 2] == 't' && v[i + 3] == 'r' && v[i + 4] == 'a' && v[i + 5] == 'c' && v[i + 6] == 'k' && v[i + 7] == 's' && v[i + 8] == '"' && v[i + 9] == ':' {
        proof {
            assert(v@.subrange(i as int, i as int + 10) =~= t_doc_tracks());
        }
        Some(i + 10)
    } else {
        proof {
            if i as int + t_doc_tracks().len() <= v@.len()
                && v@.subrange(i as int, i as int + t_doc_tracks().len()) == t_doc_tracks() {
                lemma_index_of_eq(v@, i as int, t_doc_tracks());
                assert(v@[i as int + 0] == t_doc_tracks()[0]);
                assert(v@[i as int + 1] == t_doc_tracks()[1]);
                assert(v@[i as int + 2] == t_doc_tracks()[2]);
                assert(v@[i as int + 3] == t_doc_tracks()[3]);
                assert(v@[i as int + 4] == t_doc_tracks()[4]);
                assert(v@[i as int + 5] == t_doc_tracks()[5]);
                assert(v@[i as int + 6] == t_doc_tracks()[6]);
                assert(v@[i as int + 7] == t_doc_tracks()[7]);
                assert(v@[i as int + 8] == t_doc_tracks()[8]);
                assert(v@[i as int + 9] == t_doc_tracks()[9]);
                assert(false);
            }
        }
        None
    }
}

fn push_t_doc_playlists(out: &mut Vec<char>)
    ensures
        final(out)@ == old(out)@ + t_doc_playlists(),
{
    out.push(',');
    out.push('"');
    out.push('p');
    out.push('l');
    out.push('a');
    out.push('y');
    out.push('l');
    out.push('i');
    out.push('s');
    out.push('t');
    out.push('s');
    out.push('"');
    out.push(':');
    assert(out@ =~= old(out)@ + t_doc_playlists());
}

fn eat_t_doc_playlists(v: &Vec<char>, i: usize) -> (r: Option<usize>)
    requires
        i <= v@.len(),
    ensures
        match r {
            Some(j) => j == i + 13 && j <= v@.len()
                && p_lit(v@, i as int, t_doc_playlists()) == Some(j as int),
            None => p_lit(v@, i as int, t_doc_playlists()) is None,
        },
{
    if v.len() - i >= 13 && v[i + 0] == ',' && v[i + 1] == '"' && v[i + 2] == 'p' && v[i + 3] == 'l' && v[i + 4] == 'a' && v[i + 5] == 'y' && v[i + 6] == 'l' && v[i + 7] == 'i' && v[i + 8] == 's' && v[i + 9] == 't' && v[i + 10] == 's' && v[i + 11] == '"' && v[i + 12] == ':' {
        proof {
            assert(v@.subrange(i as int, i as int + 13) =~= t_doc_playlists());
        }
        Some(i + 13)
    } else {
        proof {
            if i as int + t_doc_playlists().len() <= v@.len()
                && v@.subrange(i as int, i as int + t_doc_playlists().len()) == t_doc_playlists() {
                lemma_index_of_eq(v@, i as int, t_doc_playlists());
                assert(v@[i as int + 0] == t_doc_playlists()[0]);
                assert(v@[i as int + 1] == t_doc_playlists()[1]);
                assert(v@[i as int + 2] == t_doc_playlists()[2]);
                assert(v@[i as int + 3] == t_doc_playlists()[3]);
                assert(v@[i as int + 4] == t_doc_playlists()[4]);
                assert(v@[i as int + 5] == t_doc_playlists()[5]);
                assert(v@[i as int + 6] == t_doc_playlists()[6]);
                assert(v@[i as int + 7] == t_doc_playlists()[7]);
                assert(v@[i as int + 8] == t_doc_playlists()[8]);
                assert(v@[i as int + 9] == t_doc_playlists()[9]);
                assert(v@[i as int + 10] == t_doc_playlists()[10]);
                assert(v@[i as int + 11] == t_doc_playlists()[11]);
                assert(v@[i as int + 12] == t_doc_playlists()[12]);
                assert(false);
            }
        }
        None
    }
}

fn push_t_doc_albums(out: &mut Vec<char>)
    ensures
        final(out)@ == old(out)@ + t_doc_albums(),
{
    out.push(',');
    out.push('"');
    out.push('a');
    out.push('l');
    out.push('b');
    out.push('u');
    out.push('m');
    out.push('s');
    out.push('"');
    out.push(':');
    assert(out@ =~= old(out)@ + t_doc_albums());
}

fn eat_t_doc_albums(v: &Vec<char>, i: usize) -> (r: Option<usize>)
    requires
        i <= v@.len(),
    ensures
        match r {
            Some(j) => j == i + 10 && j <= v@.len()
                && p_lit(v@, i as int, t_doc_albums()) == Some(j as int),
            None => p_lit(v@, i as int, t_doc_albums()) is None,
        },
{
    if v.len() - i >= 10 && v[i + 0] == ',' && v[i + 1] == '"' && v[i + 2] == 'a' && v[i + 3] == 'l' && v[i + 4] == 'b' && v[i + 5] == 'u' && v[i + 6] == 'm' && v[i + 7] == 's' && v[i + 8] == '"' && v[i + 9] == ':' {
        proof {
            assert(v@.subrange(i as int, i as int + 10) =~= t_doc_albums());
        }
        Some(i + 10)
    } else {
        proof {
            if i as int + t_doc_albums().len() <= v@.len()
                && v@.subrange(i as int, i as int + t_doc_albums().len()) == t_doc_albums() {
                lemma_index_of_eq(v@, i as int, t_doc_albums());
                assert(v@[i as int + 0] == t_doc_albums()[0]);
                assert(v@[i as int + 1] == t_doc_albums()[1]);
                assert(v@[i as int + 2] == t_doc_albums()[2]);
                assert(v@[i as int + 3] == t_doc_albums()[3]);
                assert(v@[i as int + 4] == t_doc_albums()[4]);
                assert(v@[i as int + 5] == t_doc_albums()[5]);
                assert(v@[i as int + 6] == t_doc_albums()[6]);
                assert(v@[i as int + 7] == t_doc_albums()[7]);
                assert(v@[i as int + 8] == t_doc_albums()[8]);
                assert(v@[i as int + 9] == t_doc_albums()[9]);
                assert(false);
            }
        }
        None
    }
}

fn push_t_rbrace(out: &mut Vec<char>)
    ensures
        final(out)@ == old(out)@ + t_rbrace(),
{
    out.push('}');
    assert(out@ =~= old(out)@ + t_rbrace());
}

fn eat_t_rbrace(v: &Vec<char>, i: usize) -> (r: Option<usize>)
    requires
        i <= v@.len(),
    ensures
        match r {
            Some(j) => j == i + 1 && j <= v@.len()
                && p_lit(v@, i as int, t_rbrace()) == Some(j as int),
            None => p_lit(v@, i as int, t_rbrace()) is None,
        },
{
    if v.len() - i >= 1 && v[i + 0] == '}' {
        proof {
            assert(v@.subrange(i as int, i as int + 1) =~= t_rbrace());
        }
        Some(i + 1)
    } else {
        proof {
            if i as int + t_rbrace().len() <= v@.len()
                && v@.subrange(i as int, i as int + t_rbrace().len()) == t_rbrace() {
                lemma_index_of_eq(v@, i as int, t_rbrace());
                assert(v@[i as int + 0] == t_rbrace()[0]);
                assert(false);
            }
        }
        None
    }
}

pub proof fn lemma_enc_num_tail_snoc(a: Seq<u64>, x: u64)
    ensures
        enc_num_tail(a.push(x)) == enc_num_tail(a) + (seq![','] + dec_digits(x as nat)),
    decreases a.len(),
{
    if a.len() == 0 {
        reveal_with_fuel(enc_num_tail, 3);
        assert(a.push(x).drop_first() =~= Seq::<u64>::empty());
        assert(enc_num_tail(a.push(x))
            =~= enc_num_tail(a) + (seq![','] + dec_digits(x as nat)));
    } else {
        assert(a.push(x).first() == a.first());
        assert(a.push(x).drop_first() =~= a.drop_first().push(x));
        lemma_enc_num_tail_snoc(a.drop_first(), x);
        assert((seq![','] + dec_digits(a.first() as nat))
            + (enc_num_tail(a.drop_first()) + (seq![','] + dec_digits(x as nat)))
            =~= ((seq![','] + dec_digits(a.first() as nat)) + enc_num_tail(a.drop_first()))
                + (seq![','] + dec_digits(x as nat)));
    }
}

pub proof fn lemma_enc_song_tail_snoc(a: Seq<SongView>, x: SongView)
    ensures
        enc_song_tail(a.push(x)) == enc_song_tail(a) + (seq![','] + enc_song(x)),
    decreases a.len(),
{
    if a.len() == 0 {
        reveal_with_fuel(enc_song_tail, 3);
        assert(a.push(x).drop_first() =~= Seq::<SongView>::empty());
        assert(enc_song_tail(a.push(x))
            =~= enc_song_tail(a) + (seq![','] + enc_song(x)));
    } else {
        assert(a.push(x).first() == a.first());
        assert(a.push(x).drop_first() =~= a.drop_first().push(x));
        lemma_enc_song_tail_snoc(a.drop_first(), x);
        assert((seq![','] + enc_song(a.first()))
            + (enc_song_tail(a.drop_first()) + (seq![','] + enc_song(x)))
            =~= ((seq![','] + enc_song(a.first())) + enc_song_tail(a.drop_first()))
                + (seq![','] + enc_song(x)));
    }
}

pub proof fn lemma_enc_playlist_tail_snoc(a: Seq<PlaylistView>, x: PlaylistView)
    ensures
        enc_playlist_tail(a.push(x)) == enc_playlist_tail(a) + (seq![','] + enc_playlist(x)),
    decreases a.len(),
{
    if a.len() == 0 {
        reveal_with_fuel(enc_playlist_tail, 3);
        assert(a.push(x).drop_first() =~= Seq::<PlaylistView>::empty());
        assert(enc_playlist_tail(a.push(x))
            =~= enc_playlist_tail(a) + (seq![','] + enc_playlist(x)));
    } else {
        assert(a.push(x).first() == a.first());
        assert(a.push(x).drop_first() =~= a.drop_first().push(x));
        lemma_enc_playlist_tail_snoc(a.drop_first(), x);
        assert((seq![','] + enc_playlist(a.first()))
            + (enc_playlist_tail(a.drop_first()) + (seq![','] + enc_playlist(x)))
            =~= ((seq![','] + enc_playlist(a.first())) + enc_playlist_tail(a.drop_first()))
                + (seq![','] + enc_playlist(x)));
    }
}

pub proof fn lemma_enc_album_tail_snoc(a: Seq<AlbumHashedView>, x: AlbumHashedView)
    ensures
        enc_album_tail(a.push(x)) == enc_album_tail(a) + (seq![','] + enc_album_rec(x)),
    decreases a.len(),
{
    if a.len() == 0 {
        reveal_with_fuel(enc_album_tail, 3);
        assert(a.push(x).drop_first() =~= Seq::<AlbumHashedView>::empty());
        assert(enc_album_tail(a.push(x))
            =~= enc_album_tail(a) + (seq![','] + enc_album_rec(x)));
    } else {
        assert(a.push(x).first() == a.first());
        assert(a.push(x).drop_first() =~= a.drop_first().push(x));
        lemma_enc_album_tail_snoc(a.drop_first(), x);
        assert((seq![','] + enc_album_rec(a.first()))
            + (enc_album_tail(a.drop_first()) + (seq![','] + enc_album_rec(x)))
            =~= ((seq![','] + enc_album_rec(a.first())) + enc_album_tail(a.drop_first()))
                + (seq![','] + enc_album_rec(x)));
    }
}


// ---------------------------------------------------------------------
// The executable printer.
// ---------------------------------------------------------------------

/// Appends a quoted, escaped string.
fn push_enc_str(out: &mut Vec<char>, s: &str)
    ensures
        final(out)@ == old(out)@ + enc_str(s@),
{
    let ghost base = out@;
    out.push('"');
    let n = s.unicode_len();
    let mut i: usize = 0;
    proof {
        assert(esc(s@.take(0)) =~= Seq::<char>::empty());
        assert(out@ =~= base + seq!['"'] + esc(s@.take(0)));
    }
    while i < n
        invariant
            i <= n,
            n == s@.len(),
            out@ == base + seq!['"'] + esc(s@.take(i as int)),
        decreases n - i,
    {
        let c = s.get_char(i);
        if c == '"' || c == '\\' {
            out.push('\\');
            out.push(c);
        } else {
            out.push(c);
        }
        proof {
            let prev = s@.take(i as int);
            let nxt = s@.take(i as int + 1);
            assert(nxt =~= prev + seq![s@[i as int]]);
            lemma_esc_append(prev, seq![s@[i as int]]);
            assert(seq![s@[i as int]].drop_first() =~= Seq::<char>::empty());
            assert(esc(Seq::<char>::empty()) =~= Seq::<char>::empty());
            assert(esc(seq![s@[i as int]]) =~= esc_char(s@[i as int]));
            assert(out@ =~= base + seq!['"'] + esc(nxt));
        }
        i = i + 1;
    }
    proof {
        assert(s@.take(n as int) =~= s@);
    }
    out.push('"');
    proof {
        assert(out@ =~= base + enc_str(s@));
    }
}

/// Appends one album record.
fn push_album_info(out: &mut Vec<char>, v: &AlbumInfo)
    ensures
        final(out)@ == old(out)@ + enc_album_info(v@),
{
    let ghost base = out@;
    push_t_id(out);
    push_u64_digits(out, v.id);
    push_t_title(out);
    push_enc_str(out, v.title.as_str());
    push_t_rbrace(out);
    proof {
        reveal(enc_album_info);
        assert(out@ =~= base + enc_album_info(v@));
    }
}

fn push_opt_album_info(out: &mut Vec<char>, v: &Option<AlbumInfo>)
    ensures
        final(out)@ == old(out)@ + enc_opt_album_info(match v {
            Some(a) => Some(a@),
            None => None,
        }),
{
    let ghost base = out@;
    match v {
        None => {
            push_t_null(out);
        },
        Some(a) => {
            push_album_info(out, a);
        },
    }
    proof {
        reveal(enc_opt_album_info);
    }
}

fn push_track(out: &mut Vec<char>, v: &TrackRecord)
    ensures
        final(out)@ == old(out)@ + enc_track(v@),
{
    let ghost base = out@;
    push_t_id(out);
    push_u64_digits(out, v.id);
    push_t_title(out);
    push_enc_str(out, v.title.as_str());
    push_t_artist(out);
    push_enc_str(out, v.artist.as_str());
    push_t_album(out);
    push_opt_album_info(out, &v.album);
    push_t_rbrace(out);
    proof {
        reveal(enc_track);
        assert(out@ =~= base + enc_track(v@));
    }
}

fn push_opt_track(out: &mut Vec<char>, v: &Option<TrackRecord>)
    ensures
        final(out)@ == old(out)@ + enc_opt_track(match v {
            Some(t) => Some(t@),
            None => None,
        }),
{
    match v {
        None => {
            push_t_null(out);
        },
        Some(t) => {
            push_track(out, t);
        },
    }
    proof {
        reveal(enc_opt_track);
    }
}

fn push_song(out: &mut Vec<char>, v: &Song)
    ensures
        final(out)@ == old(out)@ + enc_song(v@),
{
    let ghost base = out@;
    push_t_song_path(out);
    push_enc_str(out, v.path.as_str());
    push_t_title(out);
    push_enc_str(out, v.title.as_str());
    push_t_artist(out);
    push_enc_str(out, v.artist.as_str());
    push_t_album(out);
    push_enc_str(out, v.album.as_str());
    push_t_track(out);
    push_opt_track(out, &v.remote_track);
    push_t_rbrace(out);
    proof {
        reveal(enc_song);
        assert(out@ =~= base + enc_song(v@));
    }
}

fn push_num_list(out: &mut Vec<char>, ns: &Vec<u64>)
    ensures
        final(out)@ == old(out)@ + enc_num_list(ns@),
{
    let ghost base = out@;
    out.push('[');
    if ns.len() == 0 {
        out.push(']');
        proof {
            assert(out@ =~= base + enc_num_list(ns@));
        }
        return;
    }
    push_u64_digits(out, ns[0]);
    let mut k: usize = 1;
    proof {
        assert(ns@.take(1).drop_first() =~= Seq::<u64>::empty());
        assert(out@ =~= base + seq!['['] + dec_digits(ns@.first() as nat)
            + enc_num_tail(ns@.take(1).drop_first()));
    }
    while k < ns.len()
        invariant
            1 <= k <= ns@.len(),
            out@ == base + seq!['['] + dec_digits(ns@.first() as nat)
                + enc_num_tail(ns@.take(k as int).drop_first()),
        decreases ns@.len() - k,
    {
        out.push(',');
        push_u64_digits(out, ns[k]);
        proof {
            let prev = ns@.take(k as int).drop_first();
            let nxt = ns@.take(k as int + 1).drop_first();
            assert(nxt =~= prev.push(ns@[k as int]));
            lemma_enc_num_tail_snoc(prev, ns@[k as int]);
            assert(out@ =~= base + seq!['['] + dec_digits(ns@.first() as nat)
                + enc_num_tail(nxt));
        }
        k = k + 1;
    }
    proof {
        assert(ns@.take(ns@.len() as int) =~= ns@);
    }
    out.push(']');
    proof {
        assert(out@ =~= base + enc_num_list(ns@));
    }
}

fn push_playlist(out: &mut Vec<char>, v: &Playlist)
    ensures
        final(out)@ == old(out)@ + enc_playlist(v@),
{
    let ghost base = out@;
    push_t_id(out);
    push_enc_str(out, v.id.as_str());
    push_t_name(out);
    push_enc_str(out, v.name.as_str());
    push_t_image(out);
    match &v.image {
        None => {
            push_t_null(out);
        },
        Some(p) => {
            push_enc_str(out, p.as_str());
        },
    }
    push_t_songs(out);
    push_num_list(out, &v.songs);
    push_t_rbrace(out);
    proof {
        reveal(enc_playlist);
        reveal(enc_opt_str);
        assert(out@ =~= base + enc_playlist(v@));
    }
}

fn push_album_rec(out: &mut Vec<char>, v: &AlbumHashed)
    ensures
        final(out)@ == old(out)@ + enc_album_rec(v@),
{
    let ghost base = out@;
    push_t_album_key(out);
    push_album_info(out, &v.album);
    push_t_tracks(out);
    push_num_list(out, &v.tracks);
    push_t_rbrace(out);
    proof {
        reveal(enc_album_rec);
        assert(out@ =~= base + enc_album_rec(v@));
    }
}

/// Writes the whole library document, exactly as `enc_doc` describes it.
#[verifier::rlimit(100)]
#[verifier::spinoff_prover]
pub fn encode_document(data: &DatabaseDataContainer) -> (out: Vec<char>)
    ensures
        out@ == enc_doc(data@),
{
    let mut out: Vec<char> = Vec::new();
    let ghost songs = doc_songs(data@.tracks);
    push_t_doc_tracks(&mut out);
    let tracks = data.tracks_full();
    let n = tracks.len();
    out.push('[');
    if n == 0 {
        out.push(']');
        proof {
            assert(out@ =~= t_doc_tracks() + enc_song_list(songs));
        }
    } else {
        push_song(&mut out, &tracks.entry_at(0).song);
        let mut k: usize = 1;
        proof {
            assert(songs.take(1).drop_first() =~= Seq::<SongView>::empty());
            assert(out@ =~= t_doc_tracks() + seq!['['] + enc_song(songs.first())
                + enc_song_tail(songs.take(1).drop_first()));
        }
        while k < n
            invariant
                1 <= k <= songs.len(),
                n == songs.len(),
                n == tracks@.len(),
                songs == doc_songs(data@.tracks),
                tracks@ == data@.tracks,
                out@ == t_doc_tracks() + seq!['['] + enc_song(songs.first())
                    + enc_song_tail(songs.take(k as int).drop_first()),
            decreases songs.len() - k,
        {
            out.push(',');
            push_song(&mut out, &tracks.entry_at(k).song);
            proof {
                let prev = songs.take(k as int).drop_first();
                let nxt = songs.take(k as int + 1).drop_first();
                assert(nxt =~= prev.push(songs[k as int]));
                lemma_enc_song_tail_snoc(prev, songs[k as int]);
                assert(out@ =~= t_doc_tracks() + seq!['['] + enc_song(songs.first())
                    + enc_song_tail(nxt));
            }
            k = k + 1;
        }
        proof {
            assert(songs.take(songs.len() as int) =~= songs);
        }
        out.push(']');
        proof {
            assert(out@ =~= t_doc_tracks() + enc_song_list(songs));
        }
    }
    let ghost mark1 = t_doc_tracks() + enc_song_list(songs);
    push_t_doc_playlists(&mut out);
    out.push('[');
    let pn = data.playlists_ref().len();
    if pn == 0 {
        out.push(']');
        proof {
            assert(out@ =~= mark1 + t_doc_playlists() + enc_playlist_list(data@.playlists));
        }
    } else {
        push_playlist(&mut out, &data.playlists_ref()[0]);
        let mut k: usize = 1;
        let ghost pls = data@.playlists;
        proof {
            assert(pls.take(1).drop_first() =~= Seq::<PlaylistView>::empty());
            assert(out@ =~= mark1 + t_doc_playlists() + seq!['['] + enc_playlist(pls.first())
                + enc_playlist_tail(pls.take(1).drop_first()));
        }
        while k < pn
            invariant
                1 <= k <= pls.len(),
                pn == pls.len(),
                pls == data@.playlists,
                mark1 == t_doc_tracks() + enc_song_list(doc_songs(data@.tracks)),
                out@ == mark1 + t_doc_playlists() + seq!['['] + enc_playlist(pls.first())
                    + enc_playlist_tail(pls.take(k as int).drop_first()),
            decreases pls.len() - k,
        {
            out.push(',');
            push_playlist(&mut out, &data.playlists_ref()[k]);
            proof {
                let prev = pls.take(k as int).drop_first();
                let nxt = pls.take(k as int + 1).drop_first();
                assert(nxt =~= prev.push(pls[k as int]));
                lemma_enc_playlist_tail_snoc(prev, pls[k as int]);
                assert(out@ =~= mark1 + t_doc_playlists() + seq!['[']
                    + enc_playlist(pls.first()) + enc_playlist_tail(nxt));
            }
            k = k + 1;
        }
        proof {
            assert(pls.take(pls.len() as int) =~= pls);
        }
        out.push(']');
        proof {
            assert(out@ =~= mark1 + t_doc_playlists() + enc_playlist_list(data@.playlists));
        }
    }
    let ghost mark2 = mark1 + t_doc_playlists() + enc_playlist_list(data@.playlists);
    push_t_doc_albums(&mut out);
    out.push('[');
    let an = data.albums_ref().len();
    if an == 0 {
        out.push(']');
        proof {
            assert(out@ =~= mark2 + t_doc_albums() + enc_album_list(data@.albums));
        }
    } else {
        push_album_rec(&mut out, &data.albums_ref()[0]);
        let mut k: usize = 1;
        let ghost als = data@.albums;
        proof {
            assert(als.take(1).drop_first() =~= Seq::<AlbumHashedView>::empty());
            assert(out@ =~= mark2 + t_doc_albums() + seq!['['] + enc_album_rec(als.first())
                + enc_album_tail(als.take(1).drop_first()));
        }
        while k < an
            invariant
                1 <= k <= als.len(),
                an == als.len(),
                als == data@.albums,
                mark2 == (t_doc_tracks() + enc_song_list(doc_songs(data@.tracks)))
                    + t_doc_playlists() + enc_playlist_list(data@.playlists),
                out@ == mark2 + t_doc_albums() + seq!['['] + enc_album_rec(als.first())
                    + enc_album_tail(als.take(k as int).drop_first()),
            decreases als.len() - k,
        {
            out.push(',');
            push_album_rec(&mut out, &data.albums_ref()[k]);
            proof {
                let prev = als.take(k as int).drop_first();
                let nxt = als.take(k as int + 1).drop_first();
                assert(nxt =~= prev.push(als[k as int]));
                lemma_enc_album_tail_snoc(prev, als[k as int]);
                assert(out@ =~= mark2 + t_doc_albums() + seq!['[']
                    + enc_album_rec(als.first()) + enc_album_tail(nxt));
            }
            k = k + 1;
        }
        proof {
            assert(als.take(als.len() as int) =~= als);
        }
        out.push(']');
        proof {
            assert(out@ =~= mark2 + t_doc_albums() + enc_album_list(data@.albums));
        }
    }
    push_t_rbrace(&mut out);
    proof {
        assert(out@ =~= enc_doc(data@));
    }
    out
}


// ---------------------------------------------------------------------
// The executable parser.
// ---------------------------------------------------------------------

fn read_digit(c: char) -> (r: Option<u64>)
    ensures
        match r {
            Some(d) => is_digit(c) && d == digit_val(c),
            None => !is_digit(c),
        },
{
    if c == '0' { Some(0) }
    else if c == '1' { Some(1) }
    else if c == '2' { Some(2) }
    else if c == '3' { Some(3) }
    else if c == '4' { Some(4) }
    else if c == '5' { Some(5) }
    else if c == '6' { Some(6) }
    else if c == '7' { Some(7) }
    else if c == '8' { Some(8) }
    else if c == '9' { Some(9) }
    else { None }
}

fn parse_u64(v: &Vec<char>, i: usize) -> (r: Option<(u64, usize)>)
    requires
        i <= v@.len(),
    ensures
        match r {
            Some(p) => p_u64(v@, i as int) == Some((p.0, p.1 as int))
                && i < p.1 <= v@.len(),
            None => p_u64(v@, i as int) is None,
        },
{
    if i >= v.len() {
        return None;
    }
    match read_digit(v[i]) {
        None => None,
        Some(_) => {
            let mut acc: u64 = 0;
            let mut j: usize = i;
            loop
                invariant
                    i <= j <= v@.len(),
                    i < v@.len(),
                    p_digits(v@, i as int, 0) == p_digits(v@, j as int, acc),
                    is_digit(v@[i as int]),
                decreases v@.len() - j,
            {
                if j >= v.len() {
                    return Some((acc, j));
                }
                match read_digit(v[j]) {
                    None => {
                        return Some((acc, j));
                    },
                    Some(d) => {
                        if acc > (u64::MAX - d) / 10 {
                            return None;
                        }
                        acc = acc * 10 + d;
                        j = j + 1;
                    },
                }
            }
        },
    }
}

fn parse_str(v: &Vec<char>, i: usize) -> (r: Option<(String, usize)>)
    requires
        i <= v@.len(),
    ensures
        match r {
            Some(p) => p_str(v@, i as int) == Some((p.0@, p.1 as int))
                && i < p.1 <= v@.len(),
            None => p_str(v@, i as int) is None,
        },
{
    if i >= v.len() || v[i] != '"' {
        return None;
    }
    let mut acc: Vec<char> = Vec::new();
    let mut j: usize = i + 1;
    loop
        invariant
            i + 1 <= j <= v@.len(),
            p_str_body(v@, i as int + 1, Seq::empty()) == p_str_body(v@, j as int, acc@),
            0 <= i < v@.len(),
            v@[i as int] == '"',
        decreases v@.len() - j,
    {
        if j >= v.len() {
            return None;
        }
        let c = v[j];
        if c == '"' {
            let s = string_of_chars(&acc);
            return Some((s, j + 1));
        } else if c == '\\' {
            if j + 1 >= v.len() {
                return None;
            }
            let c2 = v[j + 1];
            if c2 == '"' || c2 == '\\' {
                acc.push(c2);
                j = j + 2;
            } else {
                return None;
            }
        } else {
            acc.push(c);
            j = j + 1;
        }
    }
}

fn parse_opt_str(v: &Vec<char>, i: usize) -> (r: Option<(Option<String>, usize)>)
    requires
        i <= v@.len(),
    ensures
        match r {
            Some(p) => {
                &&& i < p.1 <= v@.len()
                &&& p_opt_str(v@, i as int) == Some((
                    match p.0 {
                        Some(ref x) => Some(x@),
                        None => None,
                    },
                    p.1 as int,
                ))
            },
            None => p_opt_str(v@, i as int) is None,
        },
{
    if i < v.len() && v[i] == 'n' {
        match eat_t_null(v, i) {
            Some(j) => Some((None, j)),
            None => None,
        }
    } else {
        match parse_str(v, i) {
            Some((x, j)) => Some((Some(x), j)),
            None => None,
        }
    }
}

fn parse_album_info(v: &Vec<char>, i: usize) -> (r: Option<(AlbumInfo, usize)>)
    requires
        i <= v@.len(),
    ensures
        match r {
            Some(p) => p_album_info(v@, i as int) == Some((p.0@, p.1 as int))
                && i < p.1 <= v@.len(),
            None => p_album_info(v@, i as int) is None,
        },
{
    match eat_t_id(v, i) {
        None => None,
        Some(j0) => {
            match parse_u64(v, j0) {
                None => None,
                Some((id, j1)) => {
                    match eat_t_title(v, j1) {
                        None => None,
                        Some(j2) => {
                            match parse_str(v, j2) {
                                None => None,
                                Some((title, j3)) => {
                                    match eat_t_rbrace(v, j3) {
                                        None => None,
                                        Some(j4) => {
                                            Some((AlbumInfo { id, title }, j4))
                                        },
                                    }
                                },
                            }
                        },
                    }
                },
            }
        },
    }
}

fn parse_opt_album_info(v: &Vec<char>, i: usize) -> (r: Option<(Option<AlbumInfo>, usize)>)
    requires
        i <= v@.len(),
    ensures
        match r {
            Some(p) => {
                &&& i < p.1 <= v@.len()
                &&& p_opt_album_info(v@, i as int) == Some((
                    match p.0 {
                        Some(ref x) => Some(x@),
                        None => None,
                    },
                    p.1 as int,
                ))
            },
            None => p_opt_album_info(v@, i as int) is None,
        },
{
    if i < v.len() && v[i] == 'n' {
        match eat_t_null(v, i) {
            Some(j) => Some((None, j)),
            None => None,
        }
    } else {
        match parse_album_info(v, i) {
            Some((x, j)) => Some((Some(x), j)),
            None => None,
        }
    }
}

fn parse_track(v: &Vec<char>, i: usize) -> (r: Option<(TrackRecord, usize)>)
    requires
        i <= v@.len(),
    ensures
        match r {
            Some(p) => p_track(v@, i as int) == Some((p.0@, p.1 as int))
                && i < p.1 <= v@.len(),
            None => p_track(v@, i as int) is None,
        },
{
    match eat_t_id(v, i) {
        None => None,
        Some(j0) => {
            match parse_u64(v, j0) {
                None => None,
                Some((id, j1)) => {
                    match eat_t_title(v, j1) {
                        None => None,
                        Some(j2) => {
                            match parse_str(v, j2) {
                                None => None,
                                Some((title, j3)) => {
                                    match eat_t_artist(v, j3) {
                                        None => None,
                                        Some(j4) => {
                                            match parse_str(v, j4) {
                                                None => None,
                                                Some((artist, j5)) => {
                                                    match eat_t_album(v, j5) {
                                                        None => None,
                                                        Some(j6) => {
                                                            match parse_opt_album_info(v, j6) {
                                                                None => None,
                                                                Some((album, j7)) => {
                                                                    match eat_t_rbrace(v, j7) {
                                                                        None => None,
                                                                        Some(j8) => {
                                                                            Some((TrackRecord { id, title, artist, album }, j8))
                                                                        },
                                                                    }
                                                                },
                                                            }
                                                        },
                                                    }
                                                },
                                            }
                                        },
                                    }
                                },
                            }
                        },
                    }
                },
            }
        },
    }
}

fn parse_opt_track(v: &Vec<char>, i: usize) -> (r: Option<(Option<TrackRecord>, usize)>)
    requires
        i <= v@.len(),
    ensures
        match r {
            Some(p) => {
                &&& i < p.1 <= v@.len()
                &&& p_opt_track(v@, i as int) == Some((
                    match p.0 {
                        Some(ref x) => Some(x@),
                        None => None,
                    },
                    p.1 as int,
                ))
            },
            None => p_opt_track(v@, i as int) is None,
        },
{
    if i < v.len() && v[i] == 'n' {
        match eat_t_null(v, i) {
            Some(j) => Some((None, j)),
            None => None,
        }
    } else {
        match parse_track(v, i) {
            Some((x, j)) => Some((Some(x), j)),
            None => None,
        }
    }
}

fn parse_song(v: &Vec<char>, i: usize) -> (r: Option<(Song, usize)>)
    requires
        i <= v@.len(),
    ensures
        match r {
            Some(p) => p_song(v@, i as int) == Some((p.0@, p.1 as int))
                && i < p.1 <= v@.len(),
            None => p_song(v@, i as int) is None,
        },
{
    match eat_t_song_path(v, i) {
        None => None,
        Some(j0) => {
            match parse_str(v, j0) {
                None => None,
                Some((path, j1)) => {
                    match eat_t_title(v, j1) {
                        None => None,
                        Some(j2) => {
                            match parse_str(v, j2) {
                                None => None,
                                Some((title, j3)) => {
                                    match eat_t_artist(v, j3) {
                                        None => None,
                                        Some(j4) => {
                                            match parse_str(v, j4) {
                                                None => None,
                                                Some((artist, j5)) => {
                                                    match eat_t_album(v, j5) {
                                                        None => None,
                                                        Some(j6) => {
                                                            match parse_str(v, j6) {
                                                                None => None,
                                                                Some((album, j7)) => {
                                                                    match eat_t_track(v, j7) {
                                                                        None => None,
                                                                        Some(j8) => {
                                                                            match parse_opt_track(v, j8) {
                                                                                None => None,
                                                                                Some((remote_track, j9)) => {
                                                                                    match eat_t_rbrace(v, j9) {
                                                                                        None => None,
                                                                                        Some(j10) => {
                                                                                            Some((Song { path, title, artist, album, remote_track }, j10))
                                                                                        },
                                                                                    }
                                                                                },
                                                                            }
                                                                        },
                                                                    }
                                                                },
                                                            }
                                                        },
                                                    }
                                                },
                                            }
                                        },
                                    }
                                },
                            }
                        },
                    }
                },
            }
        },
    }
}

fn parse_num_list(v: &Vec<char>, i: usize) -> (r: Option<(Vec<u64>, usize)>)
    requires
        i <= v@.len(),
    ensures
        match r {
            Some(p) => p_num_list(v@, i as int) == Some((p.0@, p.1 as int))
                && i < p.1 <= v@.len(),
            None => p_num_list(v@, i as int) is None,
        },
{
    if v.len() - i < 2 || v[i] != '[' {
        return None;
    }
    if v[i + 1] == ']' {
        let out: Vec<u64> = Vec::new();
        proof {
            assert(out@ =~= Seq::<u64>::empty());
        }
        return Some((out, i + 2));
    }
    match parse_u64(v, i + 1) {
        None => None,
        Some((first, j0)) => {
            let mut out: Vec<u64> = Vec::new();
            out.push(first);
            let mut j: usize = j0;
            proof {
                assert(out@ =~= seq![first]);
            }
            loop
                invariant
                    i + 1 < j <= v@.len(),
                    p_num_list(v@, i as int) == p_num_rest(v@, j as int, out@),
                decreases v@.len() - j,
            {
                if j >= v.len() {
                    return None;
                }
                let c = v[j];
                if c == ']' {
                    return Some((out, j + 1));
                } else if c == ',' {
                    match parse_u64(v, j + 1) {
                        None => {
                            return None;
                        },
                        Some((e, j2)) => {
                            out.push(e);
                            j = j2;
                        },
                    }
                } else {
                    return None;
                }
            }
        },
    }
}

fn parse_song_list(v: &Vec<char>, i: usize) -> (r: Option<(Vec<Song>, usize)>)
    requires
        i <= v@.len(),
    ensures
        match r {
            Some(p) => p_song_list(v@, i as int)
                == Some((p.0@.map_values(|x: Song| x@), p.1 as int))
                && i < p.1 <= v@.len(),
            None => p_song_list(v@, i as int) is None,
        },
{
    if v.len() - i < 2 || v[i] != '[' {
        return None;
    }
    if v[i + 1] == ']' {
        let out: Vec<Song> = Vec::new();
        proof {
            assert(out@.map_values(|x: Song| x@) =~= Seq::empty());
        }
        return Some((out, i + 2));
    }
    match parse_song(v, i + 1) {
        None => None,
        Some((first, j0)) => {
            let mut out: Vec<Song> = Vec::new();
            out.push(first);
            let mut j: usize = j0;
            proof {
                assert(out@.map_values(|x: Song| x@) =~= seq![out@[0]@]);
            }
            loop
                invariant
                    i + 1 < j <= v@.len(),
                    p_song_list(v@, i as int)
                        == p_song_rest(v@, j as int, out@.map_values(|x: Song| x@)),
                decreases v@.len() - j,
            {
                if j >= v.len() {
                    return None;
                }
                let c = v[j];
                if c == ']' {
                    return Some((out, j + 1));
                } else if c == ',' {
                    match parse_song(v, j + 1) {
                        None => {
                            return None;
                        },
                        Some((e, j2)) => {
                            let ghost before = out@.map_values(|x: Song| x@);
                            let ghost ev = e@;
                            out.push(e);
                            proof {
                                assert(out@.map_values(|x: Song| x@) =~= before.push(ev));
                            }
                            j = j2;
                        },
                    }
                } else {
                    return None;
                }
            }
        },
    }
}

fn parse_playlist(v: &Vec<char>, i: usize) -> (r: Option<(Playlist, usize)>)
    requires
        i <= v@.len(),
    ensures
        match r {
            Some(p) => p_playlist(v@, i as int) == Some((p.0@, p.1 as int))
                && i < p.1 <= v@.len(),
            None => p_playlist(v@, i as int) is None,
        },
{
    match eat_t_id(v, i) {
        None => None,
        Some(j0) => {
            match parse_str(v, j0) {
                None => None,
                Some((id, j1)) => {
                    match eat_t_name(v, j1) {
                        None => None,
                        Some(j2) => {
                            match parse_str(v, j2) {
                                None => None,
                                Some((name, j3)) => {
                                    match eat_t_image(v, j3) {
                                        None => None,
                                        Some(j4) => {
                                            match parse_opt_str(v, j4) {
                                                None => None,
                                                Some((image, j5)) => {
                                                    match eat_t_songs(v, j5) {
                                                        None => None,
                                                        Some(j6) => {
                                                            match parse_num_list(v, j6) {
                                                                None => None,
                                                                Some((songs, j7)) => {
                                                                    match eat_t_rbrace(v, j7) {
                                                                        None => None,
                                                                        Some(j8) => {
                                                                            Some((Playlist { id, name, image, songs }, j8))
                                                                        },
                                                                    }
                                                                },
                                                            }
                                                        },
                                                    }
                                                },
                                            }
                                        },
                                    }
                                },
                            }
                        },
                    }
                },
            }
        },
    }
}

fn parse_album_rec(v: &Vec<char>, i: usize) -> (r: Option<(AlbumHashed, usize)>)
    requires
        i <= v@.len(),
    ensures
        match r {
            Some(p) => p_album_rec(v@, i as int) == Some((p.0@, p.1 as int))
                && i < p.1 <= v@.len(),
            None => p_album_rec(v@, i as int) is None,
        },
{
    match eat_t_album_key(v, i) {
        None => None,
        Some(j0) => {
            match parse_album_info(v, j0) {
                None => None,
                Some((album, j1)) => {
                    match eat_t_tracks(v, j1) {
                        None => None,
                        Some(j2) => {
                            match parse_num_list(v, j2) {
                                None => None,
                                Some((tracks, j3)) => {
                                    match eat_t_rbrace(v, j3) {
                                        None => None,
                                        Some(j4) => {
                                            Some((AlbumHashed { album, tracks }, j4))
                                        },
                                    }
                                },
                            }
                        },
                    }
                },
            }
        },
    }
}

fn parse_playlist_list(v: &Vec<char>, i: usize) -> (r: Option<(Vec<Playlist>, usize)>)
    requires
        i <= v@.len(),
    ensures
        match r {
            Some(p) => p_playlist_list(v@, i as int)
                == Some((p.0@.map_values(|x: Playlist| x@), p.1 as int))
                && i < p.1 <= v@.len(),
            None => p_playlist_list(v@, i as int) is None,
        },
{
    if v.len() - i < 2 || v[i] != '[' {
        return None;
    }
    if v[i + 1] == ']' {
        let out: Vec<Playlist> = Vec::new();
        proof {
            assert(out@.map_values(|x: Playlist| x@) =~= Seq::empty());
        }
        return Some((out, i + 2));
    }
    match parse_playlist(v, i + 1) {
        None => None,
        Some((first, j0)) => {
            let mut out: Vec<Playlist> = Vec::new();
            out.push(first);
            let mut j: usize = j0;
            proof {
                assert(out@.map_values(|x: Playlist| x@) =~= seq![out@[0]@]);
            }
            loop
                invariant
                    i + 1 < j <= v@.len(),
                    p_playlist_list(v@, i as int)
                        == p_playlist_rest(v@, j as int, out@.map_values(|x: Playlist| x@)),
                decreases v@.len() - j,
            {
                if j >= v.len() {
                    return None;
                }
                let c = v[j];
                if c == ']' {
                    return Some((out, j + 1));
                } else if c == ',' {
                    match parse_playlist(v, j + 1) {
                        None => {
                            return None;
                        },
                        Some((e, j2)) => {
                            let ghost before = out@.map_values(|x: Playlist| x@);
                            let ghost ev = e@;
                            out.push(e);
                            proof {
                                assert(out@.map_values(|x: Playlist| x@) =~= before.push(ev));
                            }
                            j = j2;
                        },
                    }
                } else {
                    return None;
                }
            }
        },
    }
}

fn parse_album_list(v: &Vec<char>, i: usize) -> (r: Option<(Vec<AlbumHashed>, usize)>)
    requires
        i <= v@.len(),
    ensures
        match r {
            Some(p) => p_album_list(v@, i as int)
                == Some((p.0@.map_values(|x: AlbumHashed| x@), p.1 as int))
                && i < p.1 <= v@.len(),
            None => p_album_list(v@, i as int) is None,
        },
{
    if v.len() - i < 2 || v[i] != '[' {
        return None;
    }
    if v[i + 1] == ']' {
        let out: Vec<AlbumHashed> = Vec::new();
        proof {
            assert(out@.map_values(|x: AlbumHashed| x@) =~= Seq::empty());
        }
        return Some((out, i + 2));
    }
    match parse_album_rec(v, i + 1) {
        None => None,
        Some((first, j0)) => {
            let mut out: Vec<AlbumHashed> = Vec::new();
            out.push(first);
            let mut j: usize = j0;
            proof {
                assert(out@.map_values(|x: AlbumHashed| x@) =~= seq![out@[0]@]);
            }
            loop
                invariant
                    i + 1 < j <= v@.len(),
                    p_album_list(v@, i as int)
                        == p_album_rest(v@, j as int, out@.map_values(|x: AlbumHashed| x@)),
                decreases v@.len() - j,
            {
                if j >= v.len() {
                    return None;
                }
                let c = v[j];
                if c == ']' {
                    return Some((out, j + 1));
                } else if c == ',' {
                    match parse_album_rec(v, j + 1) {
                        None => {
                            return None;
                        },
                        Some((e, j2)) => {
                            let ghost before = out@.map_values(|x: AlbumHashed| x@);
                            let ghost ev = e@;
                            out.push(e);
                            proof {
                                assert(out@.map_values(|x: AlbumHashed| x@) =~= before.push(ev));
                            }
                            j = j2;
                        },
                    }
                } else {
                    return None;
                }
            }
        },
    }
}


pub proof fn lemma_hash_chain(s: Seq<CachedHashSongView>, i: int, j: int)
    requires
        forall|k: int| 0 <= k < s.len() - 1 ==> (#[trigger] s[k].hash) < s[k + 1].hash,
        0 <= i < j < s.len(),
    ensures
        s[i].hash < s[j].hash,
    decreases j - i,
{
    if j == i + 1 {
        assert(s[i].hash < s[i + 1].hash);
    } else {
        lemma_hash_chain(s, i, j - 1);
        assert(s[j - 1].hash < s[j].hash);
    }
}

/// Adjacent order gives total order over the entries.
pub proof fn lemma_sorted_from_adjacent(s: Seq<CachedHashSongView>)
    requires
        forall|k: int| 0 <= k < s.len() - 1 ==> (#[trigger] s[k].hash) < s[k + 1].hash,
    ensures
        sorted_by_hash(s),
{
    assert forall|i: int, j: int| 0 <= i < j < s.len() implies s[i].hash < s[j].hash by {
        lemma_hash_chain(s, i, j);
    }
}

fn parse_doc(v: &Vec<char>)
    -> (r: Option<(Vec<Song>, Vec<Playlist>, Vec<AlbumHashed>, usize)>)
    ensures
        match r {
            Some(p) => p_doc(v@, 0) == Some((
                p.0@.map_values(|x: Song| x@),
                p.1@.map_values(|x: Playlist| x@),
                p.2@.map_values(|x: AlbumHashed| x@),
                p.3 as int,
            )) && p.3 <= v@.len(),
            None => p_doc(v@, 0) is None,
        },
{
    match eat_t_doc_tracks(v, 0) {
        None => None,
        Some(j0) => {
            match parse_song_list(v, j0) {
                None => None,
                Some((songs, j1)) => {
                    match eat_t_doc_playlists(v, j1) {
                        None => None,
                        Some(j2) => {
                            match parse_playlist_list(v, j2) {
                                None => None,
                                Some((playlists, j3)) => {
                                    match eat_t_doc_albums(v, j3) {
                                        None => None,
                                        Some(j4) => {
                                            match parse_album_list(v, j4) {
                                                None => None,
                                                Some((albums, j5)) => {
                                                    match eat_t_rbrace(v, j5) {
                                                        None => None,
                                                        Some(j6) => Some((
                                                            songs,
                                                            playlists,
                                                            albums,
                                                            j6,
                                                        )),
                                                    }
                                                },
                                            }
                                        },
                                    }
                                },
                            }
                        },
                    }
                },
            }
        },
    }
}

/// Reads a whole document back from its characters: the parsed songs are
/// rekeyed under their semantic hashes, and a document whose entries do
/// not come strictly sorted is rejected.
/// The song views rekeyed under their semantic hashes.
pub open spec fn rebuilt_entries(sv: Seq<SongView>) -> Seq<CachedHashSongView> {
    sv.map_values(|s2: SongView| CachedHashSongView { hash: song_hash(s2), song: s2 })
}

#[verifier::spinoff_prover]
fn build_entries(songs: &Vec<Song>) -> (r: Option<Vec<CachedHashSong>>)
    ensures
        match r {
            Some(entries) => {
                &&& entries@.map_values(|e: CachedHashSong| e@)
                    == rebuilt_entries(songs@.map_values(|x: Song| x@))
                &&& entries_wf(entries@.map_values(|e: CachedHashSong| e@))
            },
            None => !sorted_by_hash(rebuilt_entries(songs@.map_values(|x: Song| x@))),
        },
{
    let ghost sv = songs@.map_values(|x: Song| x@);
    let ghost rebuilt = rebuilt_entries(sv);
    let mut entries: Vec<CachedHashSong> = Vec::new();
    let mut k: usize = 0;
    while k < songs.len()
        invariant
            k <= songs@.len(),
            entries@.len() == k,
            sv == songs@.map_values(|x: Song| x@),
            rebuilt == rebuilt_entries(sv),
            forall|m: int| 0 <= m < k ==> (#[trigger] entries@[m])@ == rebuilt[m],
            forall|m: int| 0 <= m < k - 1
                ==> (#[trigger] entries@[m])@.hash < entries@[m + 1]@.hash,
        decreases songs@.len() - k,
    {
        let entry = CachedHashSong::from_song(songs[k].duplicate());
        if k > 0 && entries[k - 1].hash >= entry.hash {
            proof {
                assert(rebuilt[k as int - 1].hash >= rebuilt[k as int].hash);
                assert(!sorted_by_hash(rebuilt));
            }
            return None;
        }
        entries.push(entry);
        k = k + 1;
    }
    let ghost es = entries@.map_values(|e: CachedHashSong| e@);
    proof {
        assert(es =~= rebuilt);
        assert forall|m: int| 0 <= m < es.len() - 1
            implies (#[trigger] es[m].hash) < es[m + 1].hash by {
            assert(es[m] == entries@[m]@);
            assert(es[m + 1] == entries@[m + 1]@);
        }
        lemma_sorted_from_adjacent(es);
        assert(entries_wf(es));
    }
    Some(entries)
}

#[verifier::rlimit(100)]
#[verifier::spinoff_prover]
pub fn decode_document(v: &Vec<char>) -> (r: Option<DatabaseDataContainer>)
    ensures
        match spec_decode(v@) {
            Some(dv) => r matches Some(d) && d@ == dv && d.wf(),
            None => r is None,
        },
{
    match parse_doc(v) {
        None => None,
        Some((songs, playlists, albums, j)) => {
            if j != v.len() {
                return None;
            }
            match build_entries(&songs) {
                None => None,
                Some(entries) => {
                    let tracks = TrackHashMap::from_entries(entries);
                    let data = DatabaseDataContainer::from_parts(tracks, playlists, albums);
                    proof {
                        assert(data@ == spec_decode(v@).unwrap());
                    }
                    Some(data)
                },
            }
        },
    }
}

/// A structural digest of the whole document: the digest of its canonical
/// written form. Documents with equal content hash alike; a mutation that
/// survives the round trip changes the form and so, in practice, the
/// digest.
pub open spec fn doc_hash(d: LibraryDocView) -> u64 {
    hash_chars(HASH_SEED, enc_doc(d))
}

/// Computes the structural digest of the document.
pub fn document_hash(data: &DatabaseDataContainer) -> (r: u64)
    ensures
        r == doc_hash(data@),
{
    let chars = encode_document(data);
    hash_chars_vec(HASH_SEED, &chars)
}

/// Renders the document for writing to disk.
pub fn document_to_string(data: &DatabaseDataContainer) -> (r: String)
    ensures
        r@ == enc_doc(data@),
{
    let chars = encode_document(data);
    string_of_chars(&chars)
}

/// Reads the stored document, or starts empty when the text does not
/// decode (a missing, empty or foreign file loses nothing but itself).
pub fn document_from_str(text: &str) -> (r: DatabaseDataContainer)
    ensures
        r.wf(),
        match spec_decode(text@) {
            Some(dv) => r@ == dv,
            None => {
                &&& r@.tracks =~= Seq::<CachedHashSongView>::empty()
                &&& r@.playlists =~= Seq::<PlaylistView>::empty()
                &&& r@.albums =~= Seq::<AlbumHashedView>::empty()
            },
        },
{
    let chars = chars_of_str(text);
    match decode_document(&chars) {
        Some(d) => d,
        None => DatabaseDataContainer::new(),
    }
}

} // verus!
