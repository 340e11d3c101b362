//! The verified core of the filesystem storage backend: which file a key
//! is stored in, and how a key is made safe to use as a filename. The
//! directory I/O and the encoding of entries are the embedding
//! application's affair.

use vstd::prelude::*;
use crate::storage::SerializationFormat;

verus! {

/// Whether a character is replaced outright in filenames: path separators
/// and the punctuation that filesystems reserve.
pub open spec fn dangerous_char(c: char) -> bool {
    c == '/' || c == '\\' || c == ':' || c == '*' || c == '?' || c == '"' || c == '<' || c == '>'
        || c == '|'
}

/// Unicode's control class (general category Cc): the C0 and C1 ranges.
pub open spec fn is_control_char(c: char) -> bool {
    c as u32 <= 0x1f || (0x7f <= c as u32 && c as u32 <= 0x9f)
}

/// Unicode's White_Space property: the ASCII whitespace characters, the
/// next line and no-break space controls, and the dedicated space code
/// points.
pub open spec fn is_whitespace_char(c: char) -> bool {
    ||| (0x9 <= c as u32 && c as u32 <= 0xd)
    ||| c as u32 == 0x20
    ||| c as u32 == 0x85
    ||| c as u32 == 0xa0
    ||| c as u32 == 0x1680
    ||| (0x2000 <= c as u32 && c as u32 <= 0x200a)
    ||| c as u32 == 0x2028
    ||| c as u32 == 0x2029
    ||| c as u32 == 0x202f
    ||| c as u32 == 0x205f
    ||| c as u32 == 0x3000
}

/// Relies on `char::is_control`: whether the character has Unicode's Cc
/// general category, which is exactly `is_control_char`.
#[verifier::external_body]
fn char_is_control(c: char) -> (r: bool)
    ensures
        r == is_control_char(c),
{
    c.is_control()
}

/// Relies on `char::is_whitespace`: whether the character has Unicode's
/// White_Space property, which is exactly `is_whitespace_char`.
#[verifier::external_body]
fn char_is_whitespace(c: char) -> (r: bool)
    ensures
        r == is_whitespace_char(c),
{
    c.is_whitespace()
}

/// Relies on `String::push`: appends one character.
#[verifier::external_body]
fn push_char(s: &mut String, c: char)
    ensures
        final(s)@ == old(s)@.push(c),
{
    s.push(c);
}

/// A character as it appears in a sanitized filename: dangerous and
/// control characters become underscores, everything else stays.
pub open spec fn sanitize_char(c: char) -> char {
    if dangerous_char(c) || is_control_char(c) {
        '_'
    } else {
        c
    }
}

/// A name with every character sanitized.
pub open spec fn mapped_chars(s: Seq<char>) -> Seq<char> {
    s.map_values(|c: char| sanitize_char(c))
}

/// A name with a leading dot replaced, so no hidden file is created.
pub open spec fn unhide_leading(s: Seq<char>) -> Seq<char> {
    if s.len() > 0 && s[0] == '.' {
        s.update(0, '_')
    } else {
        s
    }
}

/// A name with its trailing characters matching `p` stripped.
pub open spec fn trim_end_by(s: Seq<char>, p: spec_fn(char) -> bool) -> Seq<char>
    decreases s.len(),
{
    if s.len() > 0 && p(s.last()) {
        trim_end_by(s.drop_last(), p)
    } else {
        s
    }
}

/// A name with its leading characters matching `p` stripped.
pub open spec fn trim_start_by(s: Seq<char>, p: spec_fn(char) -> bool) -> Seq<char>
    decreases s.len(),
{
    if s.len() > 0 && p(s.first()) {
        trim_start_by(s.drop_first(), p)
    } else {
        s
    }
}

/// A name with characters matching `p` stripped from both ends.
pub open spec fn trim_by(s: Seq<char>, p: spec_fn(char) -> bool) -> Seq<char> {
    trim_start_by(trim_end_by(s, p), p)
}

/// A filename made safe: dangerous and control characters replaced, a
/// leading dot unhidden, then dots and whitespace stripped from the ends.
pub open spec fn spec_sanitize(s: Seq<char>) -> Seq<char> {
    trim_by(
        trim_by(unhide_leading(mapped_chars(s)), |c: char| c == '.'),
        |c: char| is_whitespace_char(c),
    )
}

/// Trimming the end is taking the prefix up to the last index that does
/// not match.
proof fn lemma_trim_end_take(s: Seq<char>, p: spec_fn(char) -> bool, e: int)
    requires
        0 <= e <= s.len(),
        forall|l: int| e <= l < s.len() ==> p(#[trigger] s[l]),
        e > 0 ==> !p(s[e - 1]),
    ensures
        trim_end_by(s, p) == s.take(e),
    decreases s.len(),
{
    if s.len() == e {
        assert(s.take(e) =~= s);
    } else {
        lemma_trim_end_take(s.drop_last(), p, e);
        assert(s.drop_last().take(e) =~= s.take(e));
    }
}

/// Trimming the start is dropping the prefix up to the first index that
/// does not match.
proof fn lemma_trim_start_skip(s: Seq<char>, p: spec_fn(char) -> bool, b: int)
    requires
        0 <= b <= s.len(),
        forall|l: int| 0 <= l < b ==> p(#[trigger] s[l]),
        b < s.len() ==> !p(s[b]),
    ensures
        trim_start_by(s, p) == s.skip(b),
    decreases s.len(),
{
    if b == 0 {
        assert(s.skip(0) =~= s);
    } else {
        lemma_trim_start_skip(s.drop_first(), p, b - 1);
        assert(s.drop_first().skip(b - 1) =~= s.skip(b));
    }
}

/// The filesystem backend's verified core: where each key's history
/// lives, under which directory and in which encoding.
pub struct FilesystemBackend {
    base_path: String,
    format: SerializationFormat,
}

/// The extension a format uses, as a character sequence.
pub open spec fn spec_ext(format: SerializationFormat) -> Seq<char> {
    match format {
        SerializationFormat::Json => "json"@,
        SerializationFormat::Bincode => "bin"@,
    }
}

/// The filename stem a key is stored under: its sanitized form, or a
/// fixed fallback when sanitization leaves nothing.
pub open spec fn spec_safe_stem(key: Seq<char>) -> Seq<char> {
    if spec_sanitize(key).len() == 0 {
        "cache_entry"@
    } else {
        spec_sanitize(key)
    }
}

impl FilesystemBackend {
    /// The directory the backend stores its files in.
    pub closed spec fn spec_base_path(self) -> Seq<char> {
        self.base_path@
    }

    /// The encoding the backend writes.
    pub closed spec fn spec_format(self) -> SerializationFormat {
        self.format
    }

    /// A backend over the given directory, writing the default encoding.
    pub fn at_path(base_path: String) -> (r: Self)
        ensures
            r.spec_base_path() == base_path@,
            r.spec_format() == SerializationFormat::Json,
    {
        FilesystemBackend { base_path, format: SerializationFormat::Json }
    }

    /// The same backend with another encoding.
    pub fn with_format(self, format: SerializationFormat) -> (r: Self)
        ensures
            r.spec_base_path() == self.spec_base_path(),
            r.spec_format() == format,
    {
        FilesystemBackend { format, ..self }
    }

    /// The directory the backend stores its files in.
    pub fn base_path(&self) -> (r: &str)
        ensures
            r@ == self.spec_base_path(),
    {
        self.base_path.as_str()
    }

    /// The encoding the backend writes.
    pub fn format(&self) -> (r: SerializationFormat)
        ensures
            r == self.spec_format(),
    {
        self.format
    }

    /// Make a filename safe: replace path separators, reserved
    /// punctuation and control characters by underscores, unhide a
    /// leading dot, and strip dots and whitespace from the ends.
    pub fn sanitize_filename(filename: &str) -> (r: String)
        ensures
            r@ == spec_sanitize(filename@),
    {
        let n = filename.unicode_len();
        let ghost s = filename@;
        let mut v: Vec<char> = Vec::new();
        let mut i: usize = 0;
        while i < n
            invariant
                n == s.len(),
                s == filename@,
                i <= n,
                v@ =~= unhide_leading(mapped_chars(s)).take(i as int),
            decreases n - i,
        {
            let c = filename.get_char(i);
            let dangerous = match c {
                '/' | '\\' | ':' | '*' | '?' | '"' | '<' | '>' | '|' => true,
                _ => false,
            };
            let mc = if dangerous || char_is_control(c) {
                '_'
            } else {
                c
            };
            let mc2 = if i == 0 && mc == '.' {
                '_'
            } else {
                mc
            };
            proof {
                assert(mapped_chars(s)[i as int] == sanitize_char(s[i as int]));
                assert(unhide_leading(mapped_chars(s))[i as int] == mc2);
            }
            v.push(mc2);
            i = i + 1;
        }
        let ghost u = unhide_leading(mapped_chars(s));
        proof {
            assert(v@ =~= u);
        }
        // Strip trailing, then leading, dots.
        let mut e: usize = v.len();
        while e > 0 && v[e - 1] == '.'
            invariant
                v@ == u,
                e <= u.len(),
                forall|l: int| e <= l < u.len() ==> (#[trigger] u[l]) == '.',
            decreases e,
        {
            e = e - 1;
        }
        let mut b: usize = 0;
        while b < e && v[b] == '.'
            invariant
                v@ == u,
                b <= e <= u.len(),
                forall|l: int| e <= l < u.len() ==> (#[trigger] u[l]) == '.',
                e > 0 ==> u[e - 1] != '.',
                forall|l: int| 0 <= l < b ==> (#[trigger] u[l]) == '.',
            decreases e - b,
        {
            b = b + 1;
        }
        let ghost dot_trimmed = trim_by(u, |c: char| c == '.');
        proof {
            lemma_trim_end_take(u, |c: char| c == '.', e as int);
            lemma_trim_start_skip(u.take(e as int), |c: char| c == '.', b as int);
            assert(dot_trimmed =~= u.subrange(b as int, e as int));
        }
        // Strip trailing, then leading, whitespace within what is left.
        let mut e2: usize = e;
        while e2 > b && char_is_whitespace(v[e2 - 1])
            invariant
                v@ == u,
                b <= e2 <= e <= u.len(),
                forall|l: int| e2 <= l < e ==> is_whitespace_char(#[trigger] u[l]),
            decreases e2,
        {
            e2 = e2 - 1;
        }
        let mut b2: usize = b;
        while b2 < e2 && char_is_whitespace(v[b2])
            invariant
                v@ == u,
                b <= b2 <= e2 <= e <= u.len(),
                forall|l: int| e2 <= l < e ==> is_whitespace_char(#[trigger] u[l]),
                e2 > b ==> !is_whitespace_char(u[e2 - 1]),
                forall|l: int| b <= l < b2 ==> is_whitespace_char(#[trigger] u[l]),
            decreases e2 - b2,
        {
            b2 = b2 + 1;
        }
        proof {
            let dt = dot_trimmed;
            lemma_trim_end_take(dt, |c: char| is_whitespace_char(c), e2 - b as int);
            lemma_trim_start_skip(
                dt.take(e2 - b as int),
                |c: char| is_whitespace_char(c),
                b2 - b as int,
            );
            assert(spec_sanitize(s) =~= u.subrange(b2 as int, e2 as int));
        }
        let mut out = String::new();
        let mut l: usize = b2;
        while l < e2
            invariant
                v@ == u,
                b2 <= l <= e2 <= u.len(),
                out@ =~= u.subrange(b2 as int, l as int),
            decreases e2 - l,
        {
            push_char(&mut out, v[l]);
            l = l + 1;
        }
        proof {
            assert(out@ =~= spec_sanitize(s));
        }
        out
    }

    /// The file a key's history is stored in: the sanitized key (or a
    /// fixed fallback if nothing of it survives sanitization) under the
    /// base directory, with the encoding's extension.
    pub fn get_cache_file_path(&self, key: &str) -> (r: String)
        ensures
            r@ == self.spec_base_path() + "/"@ + spec_safe_stem(key@) + "."@ + spec_ext(
                self.spec_format(),
            ),
    {
        let stem = Self::sanitize_filename(key);
        let stem = if stem.unicode_len() == 0 {
            "cache_entry".to_owned()
        } else {
            stem
        };
        self.base_path.as_str().to_owned().concat("/").concat(stem.as_str()).concat(".").concat(
            self.format.extension(),
        )
    }

    /// The file the backend's own metadata is stored in.
    pub fn get_metadata_path(&self) -> (r: String)
        ensures
            r@ == self.spec_base_path() + "/metadata."@ + spec_ext(self.spec_format()),
    {
        self.base_path.as_str().to_owned().concat("/metadata.").concat(self.format.extension())
    }

    /// Whether a file name in the base directory is one of the backend's
    /// cache files: it carries the encoding's extension after a dot, has
    /// a non-empty stem before it, and is not the metadata file.
    pub fn is_cache_file_path(&self, name: &str) -> (r: bool)
        ensures
            r == ({
                let s = name@;
                let ext = spec_ext(self.spec_format());
                &&& s.len() > ext.len() + 1
                &&& s.skip(s.len() - ext.len() - 1) =~= ("."@ + ext)
                &&& s.take(s.len() - ext.len() - 1) !== "metadata"@
            }),
    {
        let ext = self.format.extension();
        let n = name.unicode_len();
        let en = ext.unicode_len();
        if n < 2 || n - 2 < en {
            return false;
        }
        let suffix = name.substring_char(n - en - 1, n);
        let dot_ext = ".".to_owned().concat(ext);
        let suffix_ok = suffix.to_owned().eq(&dot_ext);
        if !suffix_ok {
            proof {
                assert(name@.skip(name@.len() - spec_ext(self.spec_format()).len() - 1)
                    =~= suffix@);
            }
            return false;
        }
        let stem = name.substring_char(0, n - en - 1);
        let is_meta = stem.to_owned().eq(&"metadata".to_owned());
        proof {
            assert(name@.skip(name@.len() - spec_ext(self.spec_format()).len() - 1) =~= suffix@);
            assert(name@.take(name@.len() - spec_ext(self.spec_format()).len() - 1) =~= stem@);
        }
        !is_meta
    }
}

} // verus!
