//! SQL migrations: file names, versions and checksums, their order, and
//! which of them a database has applied.
use sha2::Digest;
use vstd::prelude::*;

use crate::paths::{path_join, resolve_dir, resolve_path, resolved_path, spec_path_join};
use crate::strmap::{
    compare_chars, lemma_seq_lt_irreflexive, lemma_seq_lt_total, lemma_seq_lt_transitive, seq_lt,
    Order,
};
use crate::text::{
    chars_of, digit_char, first_index_of, is_first_index, lemma_first_index_of,
    normalize_identifier, normalized_identifier, owned, push_str, split_once_char, str_eq,
    string_of, strip_suffix,
};

verus! {

/// Why a migration file name is refused.
#[derive(PartialEq, Eq, Structural, Debug, Clone, Copy)]
pub enum MigrationNameError {
    /// The name does not end with `.sql`.
    InvalidExtension,
    /// The name is not `<version>_<name>.sql` with both parts non-empty.
    InvalidFormat,
    /// The version is not a 64-bit signed integer.
    VersionNotBigint,
    /// The migration's name is empty once normalized.
    EmptyName,
}

// ---------------------------------------------------------------------------
// Names
// ---------------------------------------------------------------------------

/// Normalizes a migration name the way identifiers are normalized.
pub fn normalize_name(value: &str) -> (r: String)
    ensures
        r@ == normalized_identifier(value@),
{
    normalize_identifier(value)
}

/// The file name of a new migration: `<stamp>_<name>.sql`, the name
/// normalized; refused when the name normalizes to nothing.
pub fn migration_file_name(stamp: &str, name: &str) -> (r: Result<String, MigrationNameError>)
    ensures
        match r {
            Ok(f) => normalized_identifier(name@).len() > 0 && f@ == stamp@ + "_"@
                + normalized_identifier(name@) + ".sql"@,
            Err(e) => normalized_identifier(name@).len() == 0 && e
                == MigrationNameError::EmptyName,
        },
{
    let safe = normalize_name(name);
    if safe.as_str().is_empty() {
        return Err(MigrationNameError::EmptyName);
    }
    let mut f = owned(stamp);
    push_str(&mut f, "_");
    push_str(&mut f, safe.as_str());
    push_str(&mut f, ".sql");
    Ok(f)
}

/// The shapes the current UTC time takes as `%Y%m%d%H%M%S`: fourteen
/// digits up to the year 9999; past it, `+` and the year's five or six
/// digits before the ten digits of the rest.
pub open spec fn utc_stamp_shape(s: Seq<char>) -> bool {
    ||| s.len() == 14 && all_digits(s)
    ||| 16 <= s.len() <= 17 && s[0] == '+' && all_digits(s.drop_first())
}

/// Calls `chrono::Utc::now()` and formats it with `%Y%m%d%H%M%S`. The time
/// depends on the clock, so only the shape of every outcome is stated:
/// `now` gives a time from 1970 on (before that it panics) and within
/// chrono's years; `%Y` writes a year up to 9999 as four digits and a later
/// one with a `+` sign; the other fields are two digits each.
#[verifier::external_body]
fn utc_now_stamp() -> (r: String)
    ensures
        utc_stamp_shape(r@),
{
    chrono::Utc::now().format("%Y%m%d%H%M%S").to_string()
}

/// The file name of a migration made now: the current UTC time as
/// `YYYYMMDDHHMMSS`, `_`, the normalized name and `.sql`; refused when the
/// name normalizes to nothing.
pub fn new_migration_file_name(name: &str) -> (r: Result<String, MigrationNameError>)
    ensures
        match r {
            Ok(f) => normalized_identifier(name@).len() > 0 && exists|stamp: Seq<char>|
                #[trigger] utc_stamp_shape(stamp) && f@ == stamp + "_"@ + normalized_identifier(
                    name@,
                ) + ".sql"@,
            Err(e) => normalized_identifier(name@).len() == 0 && e
                == MigrationNameError::EmptyName,
        },
{
    let stamp = utc_now_stamp();
    migration_file_name(stamp.as_str(), name)
}

// ---------------------------------------------------------------------------
// Versions
// ---------------------------------------------------------------------------

pub open spec fn is_digit(c: char) -> bool {
    '0' <= c && c <= '9'
}

pub open spec fn digit_value(c: char) -> int {
    (c as int) - ('0' as int)
}

/// The number that a string of decimal digits denotes.
pub open spec fn digits_value(d: Seq<char>) -> int
    decreases d.len(),
{
    if d.len() == 0 {
        0
    } else {
        digits_value(d.drop_last()) * 10 + digit_value(d.last())
    }
}

pub open spec fn all_digits(d: Seq<char>) -> bool {
    forall|i: int| 0 <= i < d.len() ==> is_digit(#[trigger] d[i])
}

/// What `str::parse::<i64>` gives: an optional `+` or `-`, then at least one
/// decimal digit and nothing else, denoting a value in the range of `i64`.
pub open spec fn parse_i64_spec(s: Seq<char>) -> Option<i64> {
    let neg = s.len() > 0 && s[0] == '-';
    let body = if s.len() > 0 && (s[0] == '-' || s[0] == '+') {
        s.drop_first()
    } else {
        s
    };
    if body.len() > 0 && all_digits(body) {
        let v = if neg {
            -digits_value(body)
        } else {
            digits_value(body)
        };
        if i64::MIN <= v && v <= i64::MAX {
            Some(v as i64)
        } else {
            None
        }
    } else {
        None
    }
}

proof fn lemma_digits_nonneg(d: Seq<char>)
    requires
        all_digits(d),
    ensures
        digits_value(d) >= 0,
    decreases d.len(),
{
    if d.len() > 0 {
        assert(is_digit(d[d.len() - 1]));
        assert(all_digits(d.drop_last())) by {
            assert forall|i: int| 0 <= i < d.drop_last().len() implies is_digit(
                #[trigger] d.drop_last()[i],
            ) by {
                assert(d.drop_last()[i] == d[i]);
            }
        }
        lemma_digits_nonneg(d.drop_last());
    }
}

proof fn lemma_digits_monotone(d: Seq<char>, k: int)
    requires
        all_digits(d),
        0 <= k <= d.len(),
    ensures
        digits_value(d.take(k)) <= digits_value(d),
    decreases d.len(),
{
    if k < d.len() {
        let e = d.drop_last();
        assert(all_digits(e)) by {
            assert forall|i: int| 0 <= i < e.len() implies is_digit(#[trigger] e[i]) by {
                assert(e[i] == d[i]);
            }
        }
        lemma_digits_monotone(e, k);
        assert(e.take(k) == d.take(k));
        lemma_digits_nonneg(e);
        assert(is_digit(d[d.len() - 1]));
    } else {
        assert(d.take(k) == d);
    }
}

/// Parses a signed 64-bit decimal integer the way `str::parse::<i64>` does.
pub fn parse_i64(s: &str) -> (r: Option<i64>)
    ensures
        r == parse_i64_spec(s@),
{
    let v = chars_of(s);
    let neg = v.len() > 0 && v[0] == '-';
    let start: usize = if v.len() > 0 && (v[0] == '-' || v[0] == '+') {
        1
    } else {
        0
    };
    let ghost body = if s@.len() > 0 && (s@[0] == '-' || s@[0] == '+') {
        s@.drop_first()
    } else {
        s@
    };
    proof {
        assert(body == v@.skip(start as int));
    }
    if start == v.len() {
        return None;
    }
    let limit: u64 = 9223372036854775808;
    let mut acc: u64 = 0;
    let mut i: usize = start;
    while i < v.len()
        invariant
            start <= i <= v.len(),
            start < v.len(),
            v@ == s@,
            body == v@.skip(start as int),
            body == (if s@.len() > 0 && (s@[0] == '-' || s@[0] == '+') {
                s@.drop_first()
            } else {
                s@
            }),
            limit == 9223372036854775808,
            acc as int == digits_value(body.take(i - start)),
            acc <= limit,
            all_digits(body.take(i - start)),
        decreases v.len() - i,
    {
        let c = v[i];
        let ghost pre = body.take(i - start);
        let ghost next = body.take(i - start + 1);
        proof {
            assert(next.drop_last() == pre);
            assert(next.last() == c);
        }
        if !('0' <= c && c <= '9') {
            proof {
                assert(!all_digits(body)) by {
                    assert(body[i - start] == c);
                }
            }
            return None;
        }
        let d: u64 = (c as u64) - ('0' as u64);
        if acc > 922337203685477580 || (acc == 922337203685477580 && d > 8) {
            proof {
                assert(digits_value(next) == digits_value(pre) * 10 + digit_value(c));
                assert(digit_value(c) == d);
                assert(digits_value(pre) == acc);
                assert(acc * 10 + d > 9223372036854775808) by (nonlinear_arith)
                    requires
                        acc > 922337203685477580 || (acc == 922337203685477580 && d > 8),
                        d >= 0,
                ;
                assert(digits_value(next) > limit);
                if all_digits(body) {
                    lemma_digits_monotone(body, i - start + 1);
                }
            }
            return None;
        }
        acc = acc * 10 + d;
        i = i + 1;
        proof {
            assert(all_digits(body.take(i - start))) by {
                assert forall|k: int| 0 <= k < next.len() implies is_digit(#[trigger] next[k]) by {
                    if k < pre.len() {
                        assert(next[k] == pre[k]);
                    }
                }
            }
        }
    }
    proof {
        assert(body.take(v@.len() - start) == body);
    }
    if neg {
        if acc == limit {
            Some(-9223372036854775808i64)
        } else {
            Some(-(acc as i64))
        }
    } else {
        if acc > 9223372036854775807 {
            None
        } else {
            Some(acc as i64)
        }
    }
}

/// What a migration file name gives: its version and name.
pub open spec fn parse_migration_filename_spec(f: Seq<char>) -> Result<
    (i64, Seq<char>),
    MigrationNameError,
> {
    if !".sql"@.is_suffix_of(f) {
        Err(MigrationNameError::InvalidExtension)
    } else {
        let raw = f.take(f.len() - ".sql"@.len());
        match first_index_of(raw, '_') {
            None => Err(MigrationNameError::InvalidFormat),
            Some(i) => {
                let version = raw.take(i);
                let name = raw.skip(i + 1);
                if version.len() == 0 || name.len() == 0 {
                    Err(MigrationNameError::InvalidFormat)
                } else {
                    match parse_i64_spec(version) {
                        None => Err(MigrationNameError::VersionNotBigint),
                        Some(v) => Ok((v, name)),
                    }
                }
            },
        }
    }
}

/// Splits a migration file name `<version>_<name>.sql` into its version and
/// name.
pub fn parse_migration_filename(file: &str) -> (r: Result<(i64, String), MigrationNameError>)
    ensures
        match r {
            Ok((v, name)) => parse_migration_filename_spec(file@) == Ok::<
                (i64, Seq<char>),
                MigrationNameError,
            >((v, name@)),
            Err(e) => parse_migration_filename_spec(file@) == Err::<
                (i64, Seq<char>),
                MigrationNameError,
            >(e),
        },
{
    let raw = match strip_suffix(file, ".sql") {
        Some(raw) => raw,
        None => {
            return Err(MigrationNameError::InvalidExtension);
        },
    };
    let (version, rest) = split_once_char(raw.as_str(), '_');
    let name = match rest {
        Some(name) => name,
        None => {
            return Err(MigrationNameError::InvalidFormat);
        },
    };
    if version.as_str().is_empty() || name.as_str().is_empty() {
        return Err(MigrationNameError::InvalidFormat);
    }
    match parse_i64(version.as_str()) {
        Some(v) => Ok((v, name)),
        None => Err(MigrationNameError::VersionNotBigint),
    }
}

/// Law: the file that `migration new` names for a timestamp of decimal
/// digits (within the range of `i64`) is read back by the loader as that
/// timestamp's value and the normalized name.
pub proof fn law_new_migration_reads_back(stamp: Seq<char>, name: Seq<char>)
    requires
        stamp.len() > 0,
        all_digits(stamp),
        digits_value(stamp) <= i64::MAX,
        normalized_identifier(name).len() > 0,
    ensures
        parse_migration_filename_spec(stamp + "_"@ + normalized_identifier(name) + ".sql"@)
            == Ok::<(i64, Seq<char>), MigrationNameError>(
            (digits_value(stamp) as i64, normalized_identifier(name)),
        ),
{
    reveal_strlit("_");
    reveal_strlit(".sql");
    let n = normalized_identifier(name);
    let raw = stamp + "_"@ + n;
    let f = raw + ".sql"@;
    assert(".sql"@.is_suffix_of(f)) by {
        assert(f.subrange(f.len() - 4, f.len() as int) =~= ".sql"@);
    }
    assert(f.take(f.len() - ".sql"@.len()) =~= raw);
    assert(is_first_index(raw, '_', stamp.len() as int)) by {
        assert(raw[stamp.len() as int] == '_');
        assert forall|k: int| 0 <= k < stamp.len() implies raw[k] != '_' by {
            assert(raw[k] == stamp[k]);
            assert(is_digit(stamp[k]));
        }
    }
    lemma_first_index_of(raw, '_', stamp.len() as int);
    assert(raw.take(stamp.len() as int) =~= stamp);
    assert(raw.skip(stamp.len() as int + 1) =~= n);
    lemma_digits_nonneg(stamp);
    if stamp[0] == '-' || stamp[0] == '+' {
        assert(is_digit(stamp[0]));
    }
}

// ---------------------------------------------------------------------------
// Checksums
// ---------------------------------------------------------------------------

/// What SHA-256 gives for the given bytes.
pub uninterp spec fn spec_sha256(data: Seq<u8>) -> Seq<u8>;

/// Calls the `sha2` crate's SHA-256 (`Sha256::new`, `update`, `finalize`).
/// The digest is named, not spelled out; it has 32 bytes.
#[verifier::external_body]
fn sha256_digest(data: &[u8]) -> (r: Vec<u8>)
    ensures
        r@ == spec_sha256(data@),
        r@.len() == 32,
{
    let mut hasher = sha2::Sha256::new();
    hasher.update(data);
    hasher.finalize().to_vec()
}

/// The lowercase hexadecimal digit of `d`.
pub open spec fn hex_char(d: nat) -> char {
    if d < 10 {
        digit_char(d)
    } else if d == 10 {
        'a'
    } else if d == 11 {
        'b'
    } else if d == 12 {
        'c'
    } else if d == 13 {
        'd'
    } else if d == 14 {
        'e'
    } else {
        'f'
    }
}

/// Two lowercase hexadecimal digits per byte, in order.
pub open spec fn hex_lower(bytes: Seq<u8>) -> Seq<char>
    decreases bytes.len(),
{
    if bytes.len() == 0 {
        Seq::empty()
    } else {
        hex_lower(bytes.drop_last()).push(hex_char((bytes.last() / 16) as nat)).push(
            hex_char((bytes.last() % 16) as nat),
        )
    }
}

fn hex_digit(d: u8) -> (c: char)
    requires
        d < 16,
    ensures
        c == hex_char(d as nat),
{
    if d == 0 {
        '0'
    } else if d == 1 {
        '1'
    } else if d == 2 {
        '2'
    } else if d == 3 {
        '3'
    } else if d == 4 {
        '4'
    } else if d == 5 {
        '5'
    } else if d == 6 {
        '6'
    } else if d == 7 {
        '7'
    } else if d == 8 {
        '8'
    } else if d == 9 {
        '9'
    } else if d == 10 {
        'a'
    } else if d == 11 {
        'b'
    } else if d == 12 {
        'c'
    } else if d == 13 {
        'd'
    } else if d == 14 {
        'e'
    } else {
        'f'
    }
}

/// The bytes in lowercase hexadecimal, as `{:x}` prints a digest.
pub fn hex_encode(bytes: &[u8]) -> (r: String)
    ensures
        r@ == hex_lower(bytes@),
{
    let mut out: Vec<char> = Vec::new();
    let mut i: usize = 0;
    while i < bytes.len()
        invariant
            i <= bytes.len(),
            out@ == hex_lower(bytes@.take(i as int)),
        decreases bytes.len() - i,
    {
        let b = bytes[i];
        proof {
            assert(bytes@.take(i + 1).drop_last() == bytes@.take(i as int));
            assert(bytes@.take(i + 1).last() == b);
        }
        out.push(hex_digit(b / 16));
        out.push(hex_digit(b % 16));
        i = i + 1;
    }
    proof {
        assert(bytes@.take(bytes@.len() as int) == bytes@);
    }
    string_of(out.as_slice())
}

/// The checksum of a migration: the SHA-256 digest of its bytes, in lowercase
/// hexadecimal.
pub fn checksum_hex(bytes: &[u8]) -> (r: String)
    ensures
        r@ == hex_lower(spec_sha256(bytes@)),
{
    let digest = sha256_digest(bytes);
    hex_encode(digest.as_slice())
}


// ---------------------------------------------------------------------------
// Migration files and their order
// ---------------------------------------------------------------------------

/// A migration read from the migrations directory.
pub struct MigrationFile {
    pub version: i64,
    pub name: String,
    pub path: String,
    pub sql: String,
    pub checksum: String,
}

/// Builds the migration stored at `path` under `file_name` from its SQL
/// text: version and name from the file name, checksum from the text.
pub fn migration_file(file_name: &str, path: String, sql: String) -> (r: Result<
    MigrationFile,
    MigrationNameError,
>)
    ensures
        match r {
            Ok(m) => {
                &&& parse_migration_filename_spec(file_name@) == Ok::<
                    (i64, Seq<char>),
                    MigrationNameError,
                >((m.version, m.name@))
                &&& m.path@ == path@
                &&& m.sql@ == sql@
                &&& m.checksum@ == hex_lower(spec_sha256(vstd::utf8::encode_utf8(sql@)))
            },
            Err(e) => parse_migration_filename_spec(file_name@) == Err::<
                (i64, Seq<char>),
                MigrationNameError,
            >(e),
        },
{
    let (version, name) = match parse_migration_filename(file_name) {
        Ok(p) => p,
        Err(e) => {
            return Err(e);
        },
    };
    let checksum = checksum_hex(sql.as_str().as_bytes());
    Ok(MigrationFile { version, name, path, sql, checksum })
}

/// Whether `a` comes no later than `b`: by version, then by name in string
/// order.
pub open spec fn migration_le(a: MigrationFile, b: MigrationFile) -> bool {
    a.version < b.version || (a.version == b.version && !seq_lt(b.name@, a.name@))
}

/// Migrations in ascending order of version and name.
pub open spec fn migrations_sorted(s: Seq<MigrationFile>) -> bool {
    forall|i: int, j: int| 0 <= i < j < s.len() ==> migration_le(#[trigger] s[i], #[trigger] s[j])
}

/// Whether a migration has the given version and name.
pub open spec fn has_key(version: i64, name: Seq<char>) -> spec_fn(MigrationFile) -> bool {
    |m: MigrationFile| m.version == version && m.name@ == name
}

proof fn lemma_migration_le_total(a: MigrationFile, b: MigrationFile)
    ensures
        migration_le(a, b) || migration_le(b, a),
        migration_le(a, b) && migration_le(b, a) ==> a.version == b.version && a.name@ == b.name@,
{
    lemma_seq_lt_total(a.name@, b.name@);
}

proof fn lemma_migration_le_transitive(a: MigrationFile, b: MigrationFile, c: MigrationFile)
    requires
        migration_le(a, b),
        migration_le(b, c),
    ensures
        migration_le(a, c),
{
    lemma_seq_lt_total(a.name@, b.name@);
    lemma_seq_lt_total(b.name@, c.name@);
    lemma_seq_lt_total(a.name@, c.name@);
    if a.version == b.version && b.version == c.version && seq_lt(c.name@, a.name@) {
        if seq_lt(c.name@, b.name@) {
            lemma_seq_lt_transitive(c.name@, b.name@, a.name@);
        } else if c.name@ == b.name@ {
        } else {
            lemma_seq_lt_transitive(b.name@, c.name@, a.name@);
        }
    }
}

/// Whether `a` comes strictly after `b`.
fn migration_after(a: &MigrationFile, b: &MigrationFile) -> (r: bool)
    ensures
        r == !migration_le(*a, *b),
{
    if a.version != b.version {
        return a.version > b.version;
    }
    let x = chars_of(a.name.as_str());
    let y = chars_of(b.name.as_str());
    compare_chars(&x, &y) == Order::Greater
}

/// Inserts `m` into sorted `out` after every migration that does not come
/// after it.
fn insert_sorted(out: &mut Vec<MigrationFile>, m: MigrationFile)
    requires
        migrations_sorted(old(out)@),
    ensures
        migrations_sorted(final(out)@),
        forall|v: i64, n: Seq<char>|
            #![trigger final(out)@.filter(has_key(v, n))]
            final(out)@.filter(has_key(v, n)) == if has_key(v, n)(m) {
                old(out)@.filter(has_key(v, n)).push(m)
            } else {
                old(out)@.filter(has_key(v, n))
            },
{
    let ghost before = out@;
    let mut p: usize = 0;
    while p < out.len() && !migration_after(&out[p], &m)
        invariant
            out@ == before,
            p <= out.len(),
            forall|j: int| 0 <= j < p ==> migration_le(#[trigger] out@[j], m),
        decreases out.len() - p,
    {
        p = p + 1;
    }
    proof {
        assert forall|j: int| p <= j < before.len() implies !migration_le(#[trigger] before[j], m) by {
            assert(!migration_le(before[p as int], m));
            if j > p {
                assert(migration_le(before[p as int], before[j]));
                lemma_migration_le_total(before[p as int], m);
                if migration_le(before[j], m) {
                    lemma_migration_le_transitive(before[p as int], before[j], m);
                }
            }
        }
    }
    out.insert(p, m);
    proof {
        let after = out@;
        let head = before.take(p as int);
        let tail = before.skip(p as int);
        assert(after == head + seq![m] + tail);
        assert(before == head + tail);
        assert forall|i: int, j: int| 0 <= i < j < after.len() implies migration_le(
            #[trigger] after[i],
            #[trigger] after[j],
        ) by {
            if j < p {
                assert(after[i] == before[i] && after[j] == before[j]);
            } else if j == p {
                assert(after[i] == before[i]);
            } else if i == p {
                assert(after[j] == before[j - 1]);
                lemma_migration_le_total(before[j - 1], m);
            } else if i < p {
                assert(after[i] == before[i] && after[j] == before[j - 1]);
            } else {
                assert(after[i] == before[i - 1] && after[j] == before[j - 1]);
            }
        }
        assert forall|v: i64, n: Seq<char>|
            #![trigger after.filter(has_key(v, n))]
            after.filter(has_key(v, n)) == if has_key(v, n)(m) {
                before.filter(has_key(v, n)).push(m)
            } else {
                before.filter(has_key(v, n))
            } by {
            let f = has_key(v, n);
            Seq::filter_distributes_over_add(head + seq![m], tail, f);
            Seq::filter_distributes_over_add(head, seq![m], f);
            Seq::filter_distributes_over_add(head, tail, f);
            reveal_with_fuel(Seq::filter, 2);
            if f(m) {
                assert forall|j: int| 0 <= j < tail.len() implies !f(#[trigger] tail[j]) by {
                    assert(tail[j] == before[p + j]);
                    assert(!migration_le(before[p + j], m));
                    lemma_seq_lt_irreflexive(m.name@);
                }
                tail.lemma_all_neg_filter_empty(f);
                assert(tail.filter(f) =~= Seq::<MigrationFile>::empty());
                assert(seq![m].filter(f) == seq![m]);
                assert(head.filter(f) + seq![m] == head.filter(f).push(m));
                assert(head.filter(f) + Seq::<MigrationFile>::empty() == head.filter(f));
            } else {
                assert(seq![m].filter(f) =~= Seq::<MigrationFile>::empty());
                assert(head.filter(f) + Seq::<MigrationFile>::empty() == head.filter(f));
            }
        }
    }
}

/// The migrations in ascending order of version and name. Migrations with
/// the same version and name keep the order in which they were given, as a
/// stable sort keeps them; nothing is added or lost.
pub fn sort_migrations(files: Vec<MigrationFile>) -> (r: Vec<MigrationFile>)
    ensures
        migrations_sorted(r@),
        forall|v: i64, n: Seq<char>|
            #![trigger r@.filter(has_key(v, n))]
            r@.filter(has_key(v, n)) == files@.filter(has_key(v, n)),
{
    let ghost orig = files@;
    let mut rest = files;
    let mut out: Vec<MigrationFile> = Vec::new();
    let ghost mut taken: int = 0;
    proof {
        reveal_with_fuel(Seq::filter, 1);
        assert(orig.take(0) =~= Seq::<MigrationFile>::empty());
        assert(rest@ == orig.skip(0));
    }
    while rest.len() > 0
        invariant
            0 <= taken <= orig.len(),
            rest@ == orig.skip(taken),
            migrations_sorted(out@),
            forall|v: i64, n: Seq<char>|
                #![trigger out@.filter(has_key(v, n))]
                out@.filter(has_key(v, n)) == orig.take(taken).filter(has_key(v, n)),
        decreases rest.len(),
    {
        let m = rest.remove(0);
        proof {
            assert(m == orig[taken]);
            assert(orig.take(taken + 1) == orig.take(taken).push(m));
        }
        let ghost prev = out@;
        insert_sorted(&mut out, m);
        proof {
            assert forall|v: i64, n: Seq<char>|
                #![trigger out@.filter(has_key(v, n))]
                out@.filter(has_key(v, n)) == orig.take(taken + 1).filter(has_key(v, n)) by {
                orig.take(taken).lemma_filter_push(m, has_key(v, n));
                assert(prev.filter(has_key(v, n)) == orig.take(taken).filter(has_key(v, n)));
            }
            taken = taken + 1;
            assert(rest@ == orig.skip(taken));
        }
    }
    proof {
        assert(orig.take(taken) == orig);
    }
    out
}


// ---------------------------------------------------------------------------
// Applied migrations
// ---------------------------------------------------------------------------

/// A migration recorded as applied in the database.
pub struct AppliedMigration {
    pub version: i64,
    pub checksum: String,
}

/// Where a migration stands against the recorded ones.
#[derive(PartialEq, Eq, Debug)]
pub enum MigrationState {
    /// No migration of its version is recorded.
    Pending,
    /// It is recorded with the same checksum.
    Applied,
    /// It is recorded with another checksum, the one given.
    ChecksumMismatch { recorded: String },
}

/// The checksum recorded for a version; where the records name a version
/// more than once, the last of them counts.
pub open spec fn recorded_checksum(applied: Seq<AppliedMigration>, version: i64) -> Option<
    Seq<char>,
>
    decreases applied.len(),
{
    if applied.len() == 0 {
        None
    } else if applied.last().version == version {
        Some(applied.last().checksum@)
    } else {
        recorded_checksum(applied.drop_last(), version)
    }
}

/// Whether `st` is the state of a migration with the given checksum, where
/// `recorded` is what the records hold for its version.
pub open spec fn state_for(
    st: MigrationState,
    recorded: Option<Seq<char>>,
    checksum: Seq<char>,
) -> bool {
    match recorded {
        None => st is Pending,
        Some(c) => if c == checksum {
            st is Applied
        } else {
            st matches MigrationState::ChecksumMismatch { recorded } && recorded@ == c
        },
    }
}

/// The checksum recorded for `version`.
fn find_recorded(applied: &Vec<AppliedMigration>, version: i64) -> (r: Option<String>)
    ensures
        match r {
            Some(c) => recorded_checksum(applied@, version) == Some(c@),
            None => recorded_checksum(applied@, version) is None,
        },
{
    let mut k: usize = applied.len();
    proof {
        assert(applied@.take(k as int) == applied@);
    }
    while k > 0
        invariant
            k <= applied.len(),
            recorded_checksum(applied@, version) == recorded_checksum(applied@.take(k as int), version),
        decreases k,
    {
        let ghost pre = applied@.take(k as int);
        proof {
            assert(pre.drop_last() == applied@.take(k - 1));
            assert(pre.last() == applied@[k - 1]);
        }
        if applied[k - 1].version == version {
            return Some(owned(applied[k - 1].checksum.as_str()));
        }
        k = k - 1;
    }
    None
}

/// The state of each migration, in order, against the recorded ones.
pub fn migration_states(migrations: &Vec<MigrationFile>, applied: &Vec<AppliedMigration>) -> (r: Vec<
    MigrationState,
>)
    ensures
        r@.len() == migrations@.len(),
        forall|i: int|
            0 <= i < migrations@.len() ==> state_for(
                #[trigger] r@[i],
                recorded_checksum(applied@, migrations@[i].version),
                migrations@[i].checksum@,
            ),
{
    proof {
        assert(applied@.take(applied@.len() as int) == applied@);
    }
    let mut out: Vec<MigrationState> = Vec::new();
    let mut i: usize = 0;
    while i < migrations.len()
        invariant
            i <= migrations.len(),
            out@.len() == i,
            forall|j: int|
                0 <= j < i ==> state_for(
                    #[trigger] out@[j],
                    recorded_checksum(applied@, migrations@[j].version),
                    migrations@[j].checksum@,
                ),
        decreases migrations.len() - i,
    {
        let m = &migrations[i];
        let st = match find_recorded(applied, m.version) {
            None => MigrationState::Pending,
            Some(c) => {
                if str_eq(c.as_str(), m.checksum.as_str()) {
                    MigrationState::Applied
                } else {
                    MigrationState::ChecksumMismatch { recorded: c }
                }
            },
        };
        out.push(st);
        i = i + 1;
    }
    out
}


/// How many of the states are `Applied` (or, with `applied` false,
/// `Pending`).
pub open spec fn count_states(s: Seq<MigrationState>, applied: bool) -> nat
    decreases s.len(),
{
    if s.len() == 0 {
        0
    } else {
        count_states(s.drop_last(), applied) + if (applied && s.last() is Applied) || (!applied
            && s.last() is Pending) {
            1nat
        } else {
            0nat
        }
    }
}

proof fn lemma_count_states_bound(s: Seq<MigrationState>, applied: bool)
    ensures
        count_states(s, applied) <= s.len(),
    decreases s.len(),
{
    if s.len() > 0 {
        lemma_count_states_bound(s.drop_last(), applied);
    }
}

/// How many migrations are applied and how many are pending.
pub fn state_counts(states: &Vec<MigrationState>) -> (r: (usize, usize))
    ensures
        r.0 == count_states(states@, true),
        r.1 == count_states(states@, false),
{
    let mut applied: usize = 0;
    let mut pending: usize = 0;
    let mut i: usize = 0;
    while i < states.len()
        invariant
            i <= states.len(),
            applied == count_states(states@.take(i as int), true),
            pending == count_states(states@.take(i as int), false),
        decreases states.len() - i,
    {
        proof {
            assert(states@.take(i + 1).drop_last() == states@.take(i as int));
            assert(states@.take(i + 1).last() == states@[i as int]);
            lemma_count_states_bound(states@.take(i as int), true);
            lemma_count_states_bound(states@.take(i as int), false);
        }
        match &states[i] {
            MigrationState::Applied => {
                applied = applied + 1;
            },
            MigrationState::Pending => {
                pending = pending + 1;
            },
            MigrationState::ChecksumMismatch { .. } => {},
        }
        i = i + 1;
    }
    proof {
        assert(states@.take(states@.len() as int) == states@);
    }
    (applied, pending)
}

/// The text a new migration file starts with.
pub const MIGRATION_TEMPLATE: &'static str = "-- Write your SQL migration here\n";

// ---------------------------------------------------------------------------
// Where migrations and snapshots live
// ---------------------------------------------------------------------------

/// Where migrations live by default, under the project directory.
pub const DEFAULT_MIGRATIONS_DIR: &'static str = "nuvix/migrations/sql";

/// Where schema snapshots live by default, under the project directory.
pub const DEFAULT_SCHEMA_DIR: &'static str = "nuvix/schema/sql";

/// The file name of the remote schema's snapshot.
pub const DEFAULT_REMOTE_SNAPSHOT_FILE: &'static str = "remote.sql";

/// The migrations directory: the one given, taken relative to the project
/// directory, or the default one.
pub fn resolve_migrations_dir(project_dir: &str, custom: &Option<String>) -> (r: String)
    ensures
        r@ == match custom {
            Some(v) => resolved_path(project_dir@, v@),
            None => spec_path_join(project_dir@, DEFAULT_MIGRATIONS_DIR@),
        },
{
    resolve_dir(project_dir, custom, DEFAULT_MIGRATIONS_DIR)
}

/// The snapshot file: the one given, taken relative to the project
/// directory, or `remote.sql` in the default schema directory.
pub fn resolve_schema_snapshot_path(project_dir: &str, custom: &Option<String>) -> (r: String)
    ensures
        r@ == match custom {
            Some(v) => resolved_path(project_dir@, v@),
            None => spec_path_join(
                spec_path_join(project_dir@, DEFAULT_SCHEMA_DIR@),
                DEFAULT_REMOTE_SNAPSHOT_FILE@,
            ),
        },
{
    match custom {
        Some(v) => resolve_path(project_dir, owned(v.as_str())),
        None => {
            let dir = path_join(project_dir, DEFAULT_SCHEMA_DIR);
            path_join(dir.as_str(), DEFAULT_REMOTE_SNAPSHOT_FILE)
        },
    }
}

proof fn lemma_recorded_checksum(applied: Seq<AppliedMigration>, version: i64)
    ensures
        match recorded_checksum(applied, version) {
            None => forall|j: int| 0 <= j < applied.len() ==> (#[trigger] applied[j]).version != version,
            Some(c) => exists|j: int|
                {
                    &&& 0 <= j < applied.len()
                    &&& applied[j].version == version
                    &&& applied[j].checksum@ == c
                    &&& forall|l: int|
                        j < l < applied.len() ==> (#[trigger] applied[l]).version != version
                },
        },
    decreases applied.len(),
{
    if applied.len() > 0 {
        let d = applied.drop_last();
        lemma_recorded_checksum(d, version);
        if applied.last().version == version {
            assert(applied.last() == applied[applied.len() - 1]);
        } else {
            match recorded_checksum(d, version) {
                None => {
                    assert forall|j: int| 0 <= j < applied.len() implies (
                    #[trigger] applied[j]).version != version by {
                        if j < d.len() {
                            assert(d[j] == applied[j]);
                        }
                    }
                },
                Some(c) => {
                    let j = choose|j: int|
                        {
                            &&& 0 <= j < d.len()
                            &&& d[j].version == version
                            &&& d[j].checksum@ == c
                            &&& forall|l: int|
                                j < l < d.len() ==> (#[trigger] d[l]).version != version
                        };
                    assert(d[j] == applied[j]);
                    assert forall|l: int| j < l < applied.len() implies (
                    #[trigger] applied[l]).version != version by {
                        if l < d.len() {
                            assert(d[l] == applied[l]);
                        }
                    }
                },
            }
        }
    }
}

/// Law: the state of a migration file against the database's records. It is
/// pending exactly when no record has its version. Otherwise the last record
/// of its version decides: applied when that record holds the file's
/// checksum, a checksum mismatch carrying the recorded checksum when not.
pub proof fn law_migration_state(st: MigrationState, applied: Seq<AppliedMigration>, m: MigrationFile)
    requires
        state_for(st, recorded_checksum(applied, m.version), m.checksum@),
    ensures
        st is Pending <==> forall|j: int|
            0 <= j < applied.len() ==> (#[trigger] applied[j]).version != m.version,
        !(st is Pending) ==> exists|j: int|
            {
                &&& 0 <= j < applied.len()
                &&& applied[j].version == m.version
                &&& (forall|l: int|
                    j < l < applied.len() ==> (#[trigger] applied[l]).version != m.version)
                &&& (st is Applied <==> applied[j].checksum@ == m.checksum@)
                &&& (st matches MigrationState::ChecksumMismatch { recorded } ==> recorded@
                    == applied[j].checksum@)
            },
{
    lemma_recorded_checksum(applied, m.version);
    match recorded_checksum(applied, m.version) {
        None => {},
        Some(c) => {
            let j = choose|j: int|
                {
                    &&& 0 <= j < applied.len()
                    &&& applied[j].version == m.version
                    &&& applied[j].checksum@ == c
                    &&& forall|l: int|
                        j < l < applied.len() ==> (#[trigger] applied[l]).version != m.version
                };
            assert(applied[j].version == m.version);
        },
    }
}

} // verus!
