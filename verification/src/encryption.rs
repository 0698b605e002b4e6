use vstd::prelude::*;

use crate::version::Version;

verus! {

/// The failure taxonomy of the container format.  Every operation returns a
/// typed result; nothing is swallowed or retried.  `Encryption` and
/// `Decryption` carry the message of the encryption capability's failure,
/// `FileCreation` the message of a filesystem failure.
#[derive(Debug, Clone, PartialEq, Eq)]
pub enum ChipaError {
    Encode(String),
    Decode(String),
    Encryption(String),
    Decryption(String),
    FileCreation(String),
    InvalidFileFormat(String),
}

impl ChipaError {
    /// The full text of this error, one fixed prefix per class.
    pub open spec fn spec_message(&self) -> Seq<char> {
        match self {
            ChipaError::Encode(m) => "Encode error, "@ + m@,
            ChipaError::Decode(m) => "Decode error, "@ + m@,
            ChipaError::Encryption(m) => "Encryption error, "@ + m@,
            ChipaError::Decryption(m) => "Decryption error, "@ + m@,
            ChipaError::FileCreation(m) => "File creation error, couldn't create .chipa file, "@
                + m@,
            ChipaError::InvalidFileFormat(m) => "Invalid file format, "@ + m@,
        }
    }

    pub fn message(&self) -> (r: String)
        ensures
            r@ == self.spec_message(),
    {
        match self {
            ChipaError::Encode(m) => String::from_str("Encode error, ").concat(m.as_str()),
            ChipaError::Decode(m) => String::from_str("Decode error, ").concat(m.as_str()),
            ChipaError::Encryption(m) => String::from_str("Encryption error, ").concat(m.as_str()),
            ChipaError::Decryption(m) => String::from_str("Decryption error, ").concat(m.as_str()),
            ChipaError::FileCreation(m) => String::from_str(
                "File creation error, couldn't create .chipa file, ",
            ).concat(m.as_str()),
            ChipaError::InvalidFileFormat(m) => String::from_str("Invalid file format, ").concat(
                m.as_str(),
            ),
        }
    }
}

/// Index right after the last occurrence of `c`, or 0 when `c` does not
/// occur.
pub open spec fn spec_after_last(s: Seq<char>, c: char) -> int
    decreases s.len(),
{
    if s.len() == 0 {
        0
    } else if s.last() == c {
        s.len() as int
    } else {
        spec_after_last(s.drop_last(), c)
    }
}

pub proof fn lemma_after_last(s: Seq<char>, c: char)
    ensures
        0 <= spec_after_last(s, c) <= s.len(),
        spec_after_last(s, c) > 0 ==> s[spec_after_last(s, c) - 1] == c,
        forall|j: int| spec_after_last(s, c) <= j < s.len() ==> s[j] != c,
    decreases s.len(),
{
    if s.len() == 0 {
    } else if s.last() == c {
    } else {
        lemma_after_last(s.drop_last(), c);
        assert forall|j: int| spec_after_last(s, c) <= j < s.len() implies s[j] != c by {
            if j < s.len() - 1 {
                assert(s[j] == s.drop_last()[j]);
            }
        }
    }
}

pub proof fn lemma_after_last_unique(s: Seq<char>, c: char, n: int)
    requires
        0 <= n <= s.len(),
        n > 0 ==> s[n - 1] == c,
        forall|j: int| n <= j < s.len() ==> s[j] != c,
    ensures
        n == spec_after_last(s, c),
    decreases s.len(),
{
    if s.len() == 0 {
    } else if s.last() == c {
        assert(n == s.len());
    } else {
        assert(n < s.len());
        assert(n > 0 ==> s.drop_last()[n - 1] == c);
        assert forall|j: int| n <= j < s.drop_last().len() implies s.drop_last()[j] != c by {
            assert(s.drop_last()[j] == s[j]);
        }
        lemma_after_last_unique(s.drop_last(), c, n);
    }
}

fn after_last(s: &str, c: char) -> (r: usize)
    ensures
        r == spec_after_last(s@, c),
{
    let len = s.unicode_len();
    let mut i = len;
    while i > 0
        invariant
            i <= len,
            len == s@.len(),
            forall|j: int| i <= j < len ==> s@[j] != c,
        decreases i,
    {
        if s.get_char(i - 1) == c {
            proof {
                lemma_after_last_unique(s@, c, i as int);
            }
            return i;
        }
        i = i - 1;
    }
    proof {
        lemma_after_last_unique(s@, c, 0);
    }
    0
}

/// The designated container extension, as characters.
pub open spec fn chipa_ext() -> Seq<char> {
    seq!['c', 'h', 'i', 'p', 'a']
}

/// The container extension with its leading dot.
pub open spec fn dot_chipa() -> Seq<char> {
    seq!['.', 'c', 'h', 'i', 'p', 'a']
}

/// The path with its trailing separators removed: the platform's path
/// type ignores them when it names a file.
pub open spec fn spec_strip_separators(p: Seq<char>) -> Seq<char>
    decreases p.len(),
{
    if p.len() > 0 && p.last() == '/' {
        spec_strip_separators(p.drop_last())
    } else {
        p
    }
}

pub proof fn lemma_strip_separators_unique(p: Seq<char>, n: int)
    requires
        0 <= n <= p.len(),
        n > 0 ==> p[n - 1] != '/',
        forall|j: int| n <= j < p.len() ==> p[j] == '/',
    ensures
        spec_strip_separators(p) == p.take(n),
    decreases p.len(),
{
    if p.len() > 0 && p.last() == '/' {
        assert(n < p.len());
        assert(n > 0 ==> p.drop_last()[n - 1] == p[n - 1]);
        assert forall|j: int| n <= j < p.drop_last().len() implies p.drop_last()[j] == '/' by {
            assert(p.drop_last()[j] == p[j]);
        }
        lemma_strip_separators_unique(p.drop_last(), n);
        assert(p.drop_last().take(n) =~= p.take(n));
    } else {
        if p.len() > 0 && n < p.len() {
            assert(p[p.len() - 1] == '/');
        }
        assert(p.take(n) =~= p);
    }
}

fn stripped_prefix(path: &str) -> (r: &str)
    ensures
        r@ == spec_strip_separators(path@),
{
    let len = path.unicode_len();
    let mut m = len;
    while m > 0 && path.get_char(m - 1) == '/'
        invariant
            m <= len,
            len == path@.len(),
            forall|j: int| m <= j < len ==> path@[j] == '/',
        decreases m,
    {
        m = m - 1;
    }
    proof {
        lemma_strip_separators_unique(path@, m as int);
        assert(path@.take(m as int) =~= path@.subrange(0, m as int));
    }
    path.substring_char(0, m)
}

/// Index where the path's file name starts: right after the last separator.
pub open spec fn spec_name_start(p: Seq<char>) -> int {
    spec_after_last(p, '/')
}

/// The path's file name: the text after the last separator, once trailing
/// separators are ignored.
pub open spec fn spec_file_name(p: Seq<char>) -> Seq<char> {
    let q = spec_strip_separators(p);
    q.subrange(spec_name_start(q), q.len() as int)
}

/// Whether the path names a file at all: the file name is not empty and is
/// neither of the two relative components.  (A path whose last component
/// is one of those is treated as having no file name.)
pub open spec fn spec_has_file_name(p: Seq<char>) -> bool {
    let f = spec_file_name(p);
    f.len() > 0 && f != seq!['.'] && f != seq!['.', '.']
}

/// The extension of the path's file name: what follows the last dot,
/// provided that dot is not the name's first character (a name that starts
/// with its only dot has no extension).
pub open spec fn spec_extension(p: Seq<char>) -> Option<Seq<char>> {
    if !spec_has_file_name(p) {
        None
    } else {
        let f = spec_file_name(p);
        let d = spec_after_last(f, '.');
        if d >= 2 {
            Some(f.subrange(d, f.len() as int))
        } else {
            None
        }
    }
}

/// The path `save` actually writes to.  A path whose extension is already
/// the container extension is kept; one with another extension has it
/// replaced; one without an extension has it appended, after any trailing
/// separators.  A path without a file name cannot be rewritten and is kept
/// as it is.
pub open spec fn spec_normalized_path(p: Seq<char>) -> Seq<char> {
    if !spec_has_file_name(p) {
        p
    } else if spec_extension(p) == Some(chipa_ext()) {
        p
    } else {
        let q = spec_strip_separators(p);
        let f = spec_file_name(p);
        let d = spec_after_last(f, '.');
        if d >= 2 {
            q.subrange(0, spec_name_start(q) + d - 1) + dot_chipa()
        } else {
            q + dot_chipa()
        }
    }
}

fn has_file_name(path: &str) -> (r: bool)
    ensures
        r == spec_has_file_name(path@),
{
    let q = stripped_prefix(path);
    let len = q.unicode_len();
    let ns = after_last(q, '/');
    proof {
        lemma_after_last(q@, '/');
    }
    let flen = len - ns;
    let ghost f = spec_file_name(path@);
    assert(f.len() == flen);
    if flen == 0 {
        false
    } else if flen == 1 && q.get_char(ns) == '.' {
        assert(f =~= seq!['.']);
        false
    } else if flen == 2 && q.get_char(ns) == '.' && q.get_char(ns + 1) == '.' {
        assert(f =~= seq!['.', '.']);
        false
    } else {
        assert(f != seq!['.'] && f != seq!['.', '.']) by {
            if f == seq!['.'] {
                assert(q@[ns as int] == f[0]);
            }
            if f == seq!['.', '.'] {
                assert(q@[ns as int] == f[0]);
                assert(q@[ns + 1] == f[1]);
            }
        }
        true
    }
}

/// Rewrites the path to carry the container extension, as `save` does:
/// silent normalization, never an error.
pub fn normalize_save_path(path: &str) -> (r: String)
    ensures
        r@ == spec_normalized_path(path@),
{
    proof {
        reveal_strlit("chipa");
        reveal_strlit(".chipa");
        assert("chipa"@ =~= chipa_ext());
        assert(".chipa"@ =~= dot_chipa());
    }
    if !has_file_name(path) {
        return String::from_str(path);
    }
    let q = stripped_prefix(path);
    let len = q.unicode_len();
    let ns = after_last(q, '/');
    proof {
        lemma_after_last(q@, '/');
    }
    let fstr = q.substring_char(ns, len);
    assert(fstr@ == spec_file_name(path@));
    let d = after_last(fstr, '.');
    proof {
        lemma_after_last(fstr@, '.');
    }
    if d >= 2 {
        let ext = fstr.substring_char(d, len - ns);
        let ext_s = String::from_str(ext);
        let chipa_s = String::from_str("chipa");
        if ext_s == chipa_s {
            assert(spec_extension(path@) == Some(chipa_ext()));
            String::from_str(path)
        } else {
            assert(spec_extension(path@) != Some(chipa_ext()));
            let stem = q.substring_char(0, ns + d - 1);
            String::from_str(stem).concat(".chipa")
        }
    } else {
        assert(spec_extension(path@) is None);
        String::from_str(q).concat(".chipa")
    }
}

/// Checks the path as `load` does: a missing or foreign extension is
/// rejected before anything is read, never rewritten.
pub fn check_load_path(path: &str) -> (r: Result<(), ChipaError>)
    ensures
        spec_extension(path@) == Some(chipa_ext()) <==> r is Ok,
        r matches Err(e) ==> e is InvalidFileFormat,
        spec_extension(path@) is None ==> (r matches Err(e) && e matches
            ChipaError::InvalidFileFormat(m) && m@ == no_extension_message()),
        spec_extension(path@) matches Some(x) ==> (x != chipa_ext() ==> (r matches Err(e) && e
            matches ChipaError::InvalidFileFormat(m) && m@ == wrong_extension_message(x))),
{
    proof {
        reveal_strlit("chipa");
        assert("chipa"@ =~= chipa_ext());
    }
    if !has_file_name(path) {
        return Err(
            ChipaError::InvalidFileFormat(
                String::from_str("Expected file to end with .chipa, found 'none'"),
            ),
        );
    }
    let q = stripped_prefix(path);
    let len = q.unicode_len();
    let ns = after_last(q, '/');
    proof {
        lemma_after_last(q@, '/');
    }
    let fstr = q.substring_char(ns, len);
    assert(fstr@ == spec_file_name(path@));
    let d = after_last(fstr, '.');
    proof {
        lemma_after_last(fstr@, '.');
    }
    if d >= 2 {
        let ext = fstr.substring_char(d, len - ns);
        let ext_s = String::from_str(ext);
        let chipa_s = String::from_str("chipa");
        if ext_s == chipa_s {
            Ok(())
        } else {
            let m = String::from_str("Expected file to end with .chipa, found '\"").concat(
                ext,
            ).concat("\"'");
            assert(m@ == wrong_extension_message(ext@));
            Err(ChipaError::InvalidFileFormat(m))
        }
    } else {
        Err(
            ChipaError::InvalidFileFormat(
                String::from_str("Expected file to end with .chipa, found 'none'"),
            ),
        )
    }
}

/// The message `load` gives for a path without any extension.
pub open spec fn no_extension_message() -> Seq<char> {
    "Expected file to end with .chipa, found 'none'"@
}

/// The message `load` gives for a path whose extension is `x`.
pub open spec fn wrong_extension_message(x: Seq<char>) -> Seq<char> {
    "Expected file to end with .chipa, found '\""@ + x + "\"'"@
}

/// Law: the asymmetric extension policy is consistent.  Whatever path with
/// a file name `save` is given, the path it actually writes to carries the
/// container extension, so a later `load` of that path is not rejected for
/// its extension.
pub proof fn lemma_saved_path_is_loadable(p: Seq<char>)
    requires
        spec_has_file_name(p),
    ensures
        spec_extension(spec_normalized_path(p)) == Some(chipa_ext()),
{
    let q0 = spec_strip_separators(p);
    let ns = spec_name_start(q0);
    let f = spec_file_name(p);
    let d = spec_after_last(f, '.');
    lemma_after_last(q0, '/');
    lemma_after_last(f, '.');
    if spec_extension(p) == Some(chipa_ext()) {
    } else {
        let q = if d >= 2 {
            q0.subrange(0, ns + d - 1)
        } else {
            q0
        };
        let p2 = q + dot_chipa();
        assert(spec_normalized_path(p) == p2);
        // The result ends in the extension, so it strips to itself.
        assert(p2[p2.len() - 1] == dot_chipa()[5]);
        assert(spec_strip_separators(p2) == p2);
        // The file name still starts at ns.
        assert(ns <= q.len()) by {
            if d >= 2 {
                assert(q.len() == ns + d - 1);
            }
        }
        assert forall|j: int| ns <= j < p2.len() implies p2[j] != '/' by {
            if j < q.len() {
                assert(q[j] == q0[j]);
            } else {
                assert(p2[j] == dot_chipa()[j - q.len()]);
            }
        }
        assert(ns > 0 ==> p2[ns - 1] == '/') by {
            if ns > 0 {
                assert(q[ns - 1] == q0[ns - 1]);
            }
        }
        lemma_after_last_unique(p2, '/', ns);
        assert(spec_name_start(p2) == ns);
        let g = q.subrange(ns, q.len() as int);
        let f2 = spec_file_name(p2);
        assert(f2 =~= g + dot_chipa());
        assert(g.len() >= 1) by {
            if d >= 2 {
            } else {
                assert(g =~= f);
            }
        }
        assert(f2.len() >= 7);
        assert(spec_has_file_name(p2)) by {
            assert(f2 != seq!['.'] && f2 != seq!['.', '.']) by {
                assert(seq!['.'].len() == 1int);
                assert(seq!['.', '.'].len() == 2int);
            }
        }
        // The last dot of the new name is the one before the new extension.
        let n2 = f2.len() - 5;
        assert(f2[n2 - 1] == dot_chipa()[0]);
        assert forall|j: int| n2 <= j < f2.len() implies f2[j] != '.' by {
            assert(f2[j] == dot_chipa()[j - g.len()]);
        }
        lemma_after_last_unique(f2, '.', n2);
        assert(spec_after_last(f2, '.') == n2);
        assert(n2 >= 2);
        let x = f2.subrange(n2, f2.len() as int);
        assert(x =~= chipa_ext()) by {
            assert forall|k: int| 0 <= k < 5 implies x[k] == chipa_ext()[k] by {
                assert(x[k] == f2[n2 + k]);
                assert(f2[n2 + k] == dot_chipa()[n2 + k - g.len()]);
            }
        }
        assert(spec_extension(p2) == Some(chipa_ext()));
    }
}

/// A serialized container frame: the version tag, big-endian, then the body
/// bytes.  This is the plaintext of the container layer — what the base
/// scope encrypts — and also the shape of the file itself, whose remainder
/// after the clear version prefix is the base ciphertext.  This frame is
/// the container codec pinned for the versions above: the envelope shape
/// (version and opaque body behind a 2-byte clear prefix) is the stable
/// contract, the byte encoding of the wrapper is a versioned detail, and
/// each version commits to exactly this layout so its files stay readable.
pub open spec fn spec_frame(v: Version, body: Seq<u8>) -> Seq<u8> {
    v.spec_be_bytes() + body
}

/// Parses a frame back into its version and body; `None` when the frame is
/// shorter than the tag or carries an unknown tag.
pub open spec fn spec_unframe(d: Seq<u8>) -> Option<(Version, Seq<u8>)> {
    if d.len() < 2 {
        None
    } else {
        match Version::spec_of_u16((d[0] * 256 + d[1]) as u16) {
            Some(v) => Some((v, d.skip(2))),
            None => None,
        }
    }
}

/// Law: the container frame round-trips.  Framing a version and a body and
/// parsing the frame back yields the same version and body, for every
/// version and every body.  The same holds of the file image, which is the
/// frame of the version and the base ciphertext.
pub proof fn lemma_frame_roundtrip(v: Version, body: Seq<u8>)
    ensures
        spec_unframe(spec_frame(v, body)) == Some((v, body)),
{
    let d = spec_frame(v, body);
    v.lemma_be_bytes_roundtrip();
    assert(d[0] == v.spec_be_bytes()[0]);
    assert(d[1] == v.spec_be_bytes()[1]);
    assert(d.skip(2) =~= body);
}

fn push_all(dst: &mut Vec<u8>, src: &Vec<u8>)
    ensures
        final(dst)@ == old(dst)@ + src@,
{
    let mut k: usize = 0;
    while k < src.len()
        invariant
            k <= src.len(),
            dst@ == old(dst)@ + src@.take(k as int),
        decreases src.len() - k,
    {
        dst.push(src[k]);
        k = k + 1;
        assert(dst@ =~= old(dst)@ + src@.take(k as int));
    }
    assert(old(dst)@ + src@.take(src@.len() as int) =~= old(dst)@ + src@);
}

fn copy_from(src: &Vec<u8>, start: usize) -> (r: Vec<u8>)
    requires
        start <= src@.len(),
    ensures
        r@ == src@.skip(start as int),
{
    let mut out: Vec<u8> = Vec::new();
    let mut k: usize = start;
    while k < src.len()
        invariant
            start <= k <= src.len(),
            out@ == src@.subrange(start as int, k as int),
        decreases src.len() - k,
    {
        out.push(src[k]);
        k = k + 1;
        assert(out@ =~= src@.subrange(start as int, k as int));
    }
    assert(src@.subrange(start as int, src@.len() as int) =~= src@.skip(start as int));
    out
}

/// Relies on rmp_serde::to_vec: the MessagePack encoding of a serializable
/// value; it fails only if the value's own Serialize implementation fails.
#[verifier::external_body]
fn rmp_encode<T: serde::Serialize + ?Sized>(value: &T) -> (r: Result<Vec<u8>, String>) {
    rmp_serde::to_vec(value).map_err(|e| e.to_string())
}

/// Relies on rmp_serde::from_slice: decodes MessagePack bytes into any
/// deserializable type, or reports why it cannot.
#[verifier::external_body]
fn rmp_decode<T: serde::de::DeserializeOwned>(bytes: &Vec<u8>) -> (r: Result<T, String>) {
    rmp_serde::from_slice(bytes.as_slice()).map_err(|e| e.to_string())
}

/// The versioned envelope: a version tag and an opaque body.  Apart from
/// the moment of construction and consumption the body holds either the
/// payload codec's bytes or their encryption — never both layers at once;
/// which one it is follows from which pipeline step produced the value.
#[derive(Debug)]
pub struct ChipaFile {
    version: Version,
    body: Vec<u8>,
}

impl ChipaFile {
    pub closed spec fn sversion(&self) -> Version {
        self.version
    }

    pub closed spec fn sbody(&self) -> Seq<u8> {
        self.body@
    }

    /// Builds an envelope directly from its parts.
    pub fn from_parts(version: Version, body: Vec<u8>) -> (r: ChipaFile)
        ensures
            r.sversion() == version,
            r.sbody() == body@,
    {
        ChipaFile { version, body }
    }

    pub fn version(&self) -> (r: Version)
        ensures
            r == self.sversion(),
    {
        self.version
    }

    pub fn body(&self) -> (r: &Vec<u8>)
        ensures
            r@ == self.sbody(),
    {
        &self.body
    }

    /// Serializes the payload with the payload codec and wraps the bytes,
    /// still plaintext, in an envelope of the given version.
    pub fn new<T: serde::Serialize + ?Sized>(version: Version, body: &T) -> (r: Result<
        ChipaFile,
        ChipaError,
    >)
        ensures
            r matches Ok(f) ==> f.sversion() == version,
            r matches Err(e) ==> e is Encode,
    {
        match rmp_encode(body) {
            Ok(b) => Ok(ChipaFile { version, body: b }),
            Err(m) => Err(ChipaError::Encode(m)),
        }
    }

    /// Deserializes the current body with the payload codec.
    pub fn read<T: serde::de::DeserializeOwned>(&self) -> (r: Result<T, ChipaError>)
        ensures
            r matches Err(e) ==> e is Decode,
    {
        match rmp_decode(&self.body) {
            Ok(v) => Ok(v),
            Err(m) => Err(ChipaError::Decode(m)),
        }
    }

    /// Re-serializes a value and replaces the in-memory body; the file, if
    /// any, is untouched.
    pub fn write<T: serde::Serialize + ?Sized>(&mut self, data: &T) -> (r: Result<(), ChipaError>)
        ensures
            final(self).sversion() == old(self).sversion(),
            r matches Err(e) ==> (e is Encode && final(self).sbody() == old(self).sbody()),
    {
        match rmp_encode(data) {
            Ok(b) => {
                self.body = b;
                Ok(())
            },
            Err(m) => Err(ChipaError::Encode(m)),
        }
    }

    /// Replaces the body with the capability's encryption of it.  Whatever
    /// the capability's failure was, it surfaces as an Encryption error.
    pub fn with_body_encrypted(&self, outcome: Result<Vec<u8>, String>) -> (r: Result<
        ChipaFile,
        ChipaError,
    >)
        ensures
            outcome matches Ok(c) ==> (r matches Ok(f) && f.sversion() == self.sversion()
                && f.sbody() == c@),
            outcome matches Err(m) ==> r == Err::<ChipaFile, ChipaError>(
                ChipaError::Encryption(m),
            ),
    {
        match outcome {
            Ok(c) => Ok(ChipaFile { version: self.version, body: c }),
            Err(m) => Err(ChipaError::Encryption(m)),
        }
    }

    /// Replaces the body with the capability's decryption of it.  A failure
    /// — the wrong key, corrupted ciphertext — is a Decryption error,
    /// never a silently wrong value.
    pub fn with_body_decrypted(&self, outcome: Result<Vec<u8>, String>) -> (r: Result<
        ChipaFile,
        ChipaError,
    >)
        ensures
            outcome matches Ok(p) ==> (r matches Ok(f) && f.sversion() == self.sversion()
                && f.sbody() == p@),
            outcome matches Err(m) ==> r == Err::<ChipaFile, ChipaError>(
                ChipaError::Decryption(m),
            ),
    {
        match outcome {
            Ok(p) => Ok(ChipaFile { version: self.version, body: p }),
            Err(m) => Err(ChipaError::Decryption(m)),
        }
    }

    /// Serializes the envelope into the container frame that the base scope
    /// encrypts.
    pub fn to_frame(&self) -> (r: Vec<u8>)
        ensures
            r@ == spec_frame(self.sversion(), self.sbody()),
    {
        let mut out = self.version.be_bytes();
        push_all(&mut out, &self.body);
        out
    }

    /// Parses a base-decrypted container frame back into an envelope.  A
    /// frame that is too short or carries an unknown tag cannot have come
    /// from `to_frame` and is a Decode failure.
    pub fn from_frame(data: &Vec<u8>) -> (r: Result<ChipaFile, ChipaError>)
        ensures
            spec_unframe(data@) matches Some(p) ==> (r matches Ok(f) && f.sversion() == p.0
                && f.sbody() == p.1),
            spec_unframe(data@) is None ==> (r matches Err(e) && e is Decode),
    {
        if data.len() < 2 {
            return Err(ChipaError::Decode(String::from_str("frame is too short")));
        }
        let n: u16 = (data[0] as u16) * 256 + (data[1] as u16);
        assert(n == (data@[0] * 256 + data@[1]) as u16);
        match Version::from_u16(n) {
            Ok(v) => {
                let body = copy_from(data, 2);
                Ok(ChipaFile { version: v, body })
            },
            Err(_) => Err(ChipaError::Decode(String::from_str("unknown version tag in frame"))),
        }
    }

    /// Builds the on-disk image: the 2-byte big-endian version prefix in
    /// the clear — it must stay readable to select the scheme on load —
    /// followed by the base-encrypted frame.
    pub fn assemble_file(version: Version, base_outcome: Result<Vec<u8>, String>) -> (r: Result<
        Vec<u8>,
        ChipaError,
    >)
        ensures
            base_outcome matches Ok(c) ==> (r matches Ok(b) && b@ == spec_frame(version, c@)),
            base_outcome matches Err(m) ==> r == Err::<Vec<u8>, ChipaError>(
                ChipaError::Encryption(m),
            ),
    {
        match base_outcome {
            Ok(c) => {
                let mut out = version.be_bytes();
                push_all(&mut out, &c);
                Ok(out)
            },
            Err(m) => Err(ChipaError::Encryption(m)),
        }
    }

    /// Splits raw file bytes into the clear version and the base-encrypted
    /// remainder.  A file shorter than the prefix is invalid; an
    /// unrecognized version number fails closed as a decryption-class
    /// error, never a guess at a known version.
    pub fn split_file(data: &Vec<u8>) -> (r: Result<(Version, Vec<u8>), ChipaError>)
        ensures
            data@.len() < 2 ==> (r matches Err(e) && e matches ChipaError::InvalidFileFormat(m)
                && m@ == "File is too small"@),
            data@.len() >= 2 ==> match Version::spec_of_u16((data@[0] * 256 + data@[1]) as u16) {
                Some(v) => r matches Ok(p) && p.0 == v && p.1@ == data@.skip(2),
                None => r matches Err(e) && e is Decryption,
            },
    {
        if data.len() < 2 {
            return Err(ChipaError::InvalidFileFormat(String::from_str("File is too small")));
        }
        let n: u16 = (data[0] as u16) * 256 + (data[1] as u16);
        assert(n == (data@[0] * 256 + data@[1]) as u16);
        let v = Version::from_u16(n)?;
        let rest = copy_from(data, 2);
        Ok((v, rest))
    }

    /// Accepts the capability's base decryption of a file's remainder; its
    /// failure — a corrupted file, a foreign key — is a Decryption error.
    pub fn base_decrypted(outcome: Result<Vec<u8>, String>) -> (r: Result<Vec<u8>, ChipaError>)
        ensures
            outcome matches Ok(b) ==> r == Ok::<Vec<u8>, ChipaError>(b),
            outcome matches Err(m) ==> r == Err::<Vec<u8>, ChipaError>(ChipaError::Decryption(m)),
    {
        match outcome {
            Ok(b) => Ok(b),
            Err(m) => Err(ChipaError::Decryption(m)),
        }
    }
}

} // verus!
