//! Core data model: formats, classes, query intervals, headers, urls,
//! responses, the query builder and the htsget error taxonomy.

use vstd::prelude::*;
use vstd::string::StringExecFns;
use vstd::string::StringSliceAdditionalSpecFns;

verus! {

/// True when `suffix` is a byte-suffix of `s`.
pub open spec fn spec_ends_with(s: Seq<u8>, suffix: Seq<u8>) -> bool {
    suffix.len() <= s.len() && s.subrange(s.len() - suffix.len(), s.len() as int) == suffix
}

/// Byte-level suffix test on string slices.
pub fn str_ends_with(s: &str, suffix: &str) -> (r: bool)
    ensures
        r == spec_ends_with(s.spec_bytes(), suffix.spec_bytes()),
{
    let sb = s.as_bytes();
    let xb = suffix.as_bytes();
    if xb.len() > sb.len() {
        assert(!spec_ends_with(s.spec_bytes(), suffix.spec_bytes()));
        return false;
    }
    let off: usize = sb.len() - xb.len();
    let mut i: usize = 0;
    while i < xb.len()
        invariant
            xb.len() <= sb.len(),
            off == sb.len() - xb.len(),
            i <= xb.len(),
            sb@ == s.spec_bytes(),
            xb@ == suffix.spec_bytes(),
            forall|j: int| 0 <= j < i ==> sb@[off + j] == xb@[j],
        decreases xb.len() - i,
    {
        if sb[off + i] != xb[i] {
            assert(s.spec_bytes().subrange(
                s.spec_bytes().len() - suffix.spec_bytes().len(),
                s.spec_bytes().len() as int,
            )[i as int] != suffix.spec_bytes()[i as int]);
            return false;
        }
        i += 1;
    }
    assert(s.spec_bytes().subrange(
        s.spec_bytes().len() - suffix.spec_bytes().len(),
        s.spec_bytes().len() as int,
    ) =~= suffix.spec_bytes());
    true
}

/// The file formats a query can name.
#[derive(Copy, Clone, Debug, PartialEq, Eq, Structural)]
pub enum Format {
    Bam,
    Cram,
    Vcf,
    Bcf,
}

/// Whether a key names a data file or an index file.
#[derive(Copy, Clone, Debug, PartialEq, Eq, Structural)]
pub enum KeyType {
    File,
    Index,
}

/// Class component of an htsget response: the header part or the body.
#[derive(Copy, Clone, Debug, PartialEq, Eq, Structural)]
pub enum Class {
    Header,
    Body,
}

/// Url scheme of a ticket server.
#[derive(Copy, Clone, Debug, Default, PartialEq, Eq, Structural)]
pub enum Scheme {
    #[default]
    Http,
    Https,
}

impl Format {
    /// The ending of a data file of this format.
    pub fn file_ending(&self) -> (r: &str)
        ensures
            r@ == self.spec_file_ending(),
    {
        match self {
            Format::Bam => ".bam",
            Format::Cram => ".cram",
            Format::Vcf => ".vcf.gz",
            Format::Bcf => ".bcf",
        }
    }

    /// The ending of the index file of this format.
    pub fn index_file_ending(&self) -> (r: &str)
        ensures
            r@ == self.spec_index_file_ending(),
    {
        match self {
            Format::Bam => ".bam.bai",
            Format::Cram => ".cram.crai",
            Format::Vcf => ".vcf.gz.tbi",
            Format::Bcf => ".bcf.csi",
        }
    }

    pub open spec fn spec_file_ending(self) -> Seq<char> {
        match self {
            Format::Bam => ".bam"@,
            Format::Cram => ".cram"@,
            Format::Vcf => ".vcf.gz"@,
            Format::Bcf => ".bcf"@,
        }
    }

    pub open spec fn spec_index_file_ending(self) -> Seq<char> {
        match self {
            Format::Bam => ".bam.bai"@,
            Format::Cram => ".cram.crai"@,
            Format::Vcf => ".vcf.gz.tbi"@,
            Format::Bcf => ".bcf.csi"@,
        }
    }

    /// The display name of the format, as it appears in responses.
    pub open spec fn spec_format_name(self) -> Seq<char> {
        match self {
            Format::Bam => "BAM"@,
            Format::Cram => "CRAM"@,
            Format::Vcf => "VCF"@,
            Format::Bcf => "BCF"@,
        }
    }

    /// The display name of the format.
    pub fn to_string(&self) -> (r: String)
        ensures
            r@ == self.spec_format_name(),
    {
        let s: &str = match self {
            Format::Bam => "BAM",
            Format::Cram => "CRAM",
            Format::Vcf => "VCF",
            Format::Bcf => "BCF",
        };
        s.to_owned()
    }

    /// The key of the data file that a query asks for: the identifier
    /// with the format's ending, and the Crypt4GH ending on top for an
    /// encrypted object.
    pub fn fmt_file(&self, query: &Query) -> (r: String)
        ensures
            query.object_type is Crypt4GH ==> r@ == query.id@ + self.spec_file_ending()
                + ".c4gh"@,
            query.object_type is Plain ==> r@ == query.id@ + self.spec_file_ending(),
    {
        let mut out = query.id.as_str().to_owned();
        out.append(self.file_ending());
        if query.object_type().is_crypt4gh() {
            out.append(".c4gh");
        }
        out
    }

    /// The key of the index file that belongs to the identifier `id`.
    pub fn fmt_index(&self, id: &str) -> (r: String)
        ensures
            r@ == id@ + self.spec_index_file_ending(),
    {
        let mut out = id.to_owned();
        out.append(self.index_file_ending());
        out
    }

    /// The ending of the GZI index of this format; CRAM has none.
    pub fn gzi_index_file_ending(&self) -> (r: Result<&str, HtsGetError>)
        ensures
            match r {
                Ok(e) => self != Format::Cram && e@ == self.spec_gzi_index_file_ending(),
                Err(err) => self == Format::Cram && err is IoError,
            },
    {
        match self {
            Format::Bam => Ok(".bam.gzi"),
            Format::Cram => Err(HtsGetError::io_error("CRAM does not support GZI")),
            Format::Vcf => Ok(".vcf.gz.gzi"),
            Format::Bcf => Ok(".bcf.gzi"),
        }
    }

    pub open spec fn spec_gzi_index_file_ending(self) -> Seq<char> {
        match self {
            Format::Bam => ".bam.gzi"@,
            Format::Cram => Seq::<char>::empty(),
            Format::Vcf => ".vcf.gz.gzi"@,
            Format::Bcf => ".bcf.gzi"@,
        }
    }

    /// The key of the GZI index that belongs to the identifier `id`.
    pub fn fmt_gzi(&self, id: &str) -> (r: Result<String, HtsGetError>)
        ensures
            match r {
                Ok(key) => self != Format::Cram && key@ == id@ + self.spec_gzi_index_file_ending(),
                Err(err) => self == Format::Cram && err is IoError,
            },
    {
        let ending = self.gzi_index_file_ending()?;
        let mut out = id.to_owned();
        out.append(ending);
        Ok(out)
    }
}

impl KeyType {
    /// True when the byte sequence ends with one of the endings that mark an
    /// index key.
    pub open spec fn spec_is_index_key(key: Seq<u8>) -> bool {
        ||| spec_ends_with(key, ".bam.bai".spec_bytes())
        ||| spec_ends_with(key, ".vcf.gz.tbi".spec_bytes())
        ||| spec_ends_with(key, ".cram.crai".spec_bytes())
        ||| spec_ends_with(key, ".bcf.csi".spec_bytes())
        ||| spec_ends_with(key, ".bam.gzi".spec_bytes())
        ||| spec_ends_with(key, ".vcf.gz.gzi".spec_bytes())
        ||| spec_ends_with(key, ".bcf.gzi".spec_bytes())
    }

    /// Classify a key by its ending.
    pub fn from_ending(key: &str) -> (r: KeyType)
        ensures
            r == KeyType::Index <==> Self::spec_is_index_key(key.spec_bytes()),
    {
        if str_ends_with(key, ".bam.bai") || str_ends_with(key, ".vcf.gz.tbi")
            || str_ends_with(key, ".cram.crai") || str_ends_with(key, ".bcf.csi")
            || str_ends_with(key, ".bam.gzi") || str_ends_with(key, ".vcf.gz.gzi")
            || str_ends_with(key, ".bcf.gzi") {
            KeyType::Index
        } else {
            KeyType::File
        }
    }
}

impl Scheme {
    /// The display name of the scheme, as it appears in urls.
    pub open spec fn spec_scheme_name(self) -> Seq<char> {
        match self {
            Scheme::Http => "http"@,
            Scheme::Https => "https"@,
        }
    }

    /// The display name of the scheme.
    pub fn to_string(&self) -> (r: String)
        ensures
            r@ == self.spec_scheme_name(),
    {
        let s: &str = match self {
            Scheme::Http => "http",
            Scheme::Https => "https",
        };
        s.to_owned()
    }
}

/// An interval of a query: 0-based, half-open.
#[derive(Copy, Clone, Debug, Default, PartialEq, Eq, Structural)]
pub struct Interval {
    pub start: Option<u32>,
    pub end: Option<u32>,
}

impl Interval {
    /// Create a new interval.
    pub fn new(start: Option<u32>, end: Option<u32>) -> (r: Self)
        ensures
            r.start() == start,
            r.end() == end,
    {
        Self { start, end }
    }

    pub open spec fn spec_contains(self, value: u32) -> bool {
        &&& (self.start() matches Some(s) ==> value >= s)
        &&& (self.end() matches Some(e) ==> value < e)
    }

    /// Convert this interval to its one-based closed form, for libraries
    /// that require it: the start moves up by one, an absent bound stays
    /// absent. A start at the numeric limit cannot be converted, and a
    /// zero end is rejected: no one-based closed position is zero.
    pub fn into_one_based(self) -> (r: Result<(Option<u32>, Option<u32>), HtsGetError>)
        ensures
            match r {
                Ok((s, e)) => {
                    &&& self.start() != Some(u32::MAX)
                    &&& self.end() != Some(0u32)
                    &&& (self.start() matches Some(v) ==> s == Some((v + 1) as u32))
                    &&& (self.start() is None ==> s is None)
                    &&& e == self.end()
                },
                Err(err) => (self.start() == Some(u32::MAX) || self.end() == Some(0u32))
                    && err is InvalidInput,
            },
    {
        let start = match self.start {
            Some(v) => {
                if v == u32::MAX {
                    return Err(HtsGetError::invalid_input(
                        "could not convert to a one-based position",
                    ));
                }
                Some(v + 1)
            },
            None => None,
        };
        if self.end == Some(0) {
            return Err(HtsGetError::invalid_input(
                "a one-based position cannot be zero",
            ));
        }
        Ok((start, self.end))
    }

    /// Whether this interval contains the value; an absent bound does not
    /// constrain.
    pub fn contains(&self, value: u32) -> (r: bool)
        ensures
            r == self.spec_contains(value),
    {
        match (self.start, self.end) {
            (None, None) => true,
            (None, Some(end)) => value < end,
            (Some(start), None) => value >= start,
            (Some(start), Some(end)) => value >= start && value < end,
        }
    }

    #[verifier::when_used_as_spec(spec_start)]
    pub fn start(&self) -> (r: Option<u32>)
        ensures
            r == self.spec_start(),
    {
        self.start
    }

    #[verifier::when_used_as_spec(spec_end)]
    pub fn end(&self) -> (r: Option<u32>)
        ensures
            r == self.spec_end(),
    {
        self.end
    }

    pub open spec fn spec_start(&self) -> Option<u32> {
        self.start
    }

    pub open spec fn spec_end(&self) -> Option<u32> {
        self.end
    }
}

/// The error taxonomy of the resolver; each variant carries a
/// human-readable message.
#[derive(Clone, Debug, PartialEq, Eq)]
pub enum HtsGetError {
    NotFound(String),
    UnsupportedFormat(String),
    InvalidInput(String),
    InvalidRange(String),
    IoError(String),
    ParseError(String),
    InternalError(String),
}

impl HtsGetError {
    /// A key or reference name was not found.
    pub fn not_found(message: &str) -> (r: Self)
        ensures
            r matches HtsGetError::NotFound(m) && m@ == message@,
    {
        Self::NotFound(message.to_owned())
    }

    /// The format is not supported.
    pub fn unsupported_format(format: &str) -> (r: Self)
        ensures
            r matches HtsGetError::UnsupportedFormat(m) && m@ == format@,
    {
        Self::UnsupportedFormat(format.to_owned())
    }

    /// The request input was malformed.
    pub fn invalid_input(message: &str) -> (r: Self)
        ensures
            r matches HtsGetError::InvalidInput(m) && m@ == message@,
    {
        Self::InvalidInput(message.to_owned())
    }

    /// The requested range was ill-formed.
    pub fn invalid_range(message: &str) -> (r: Self)
        ensures
            r matches HtsGetError::InvalidRange(m) && m@ == message@,
    {
        Self::InvalidRange(message.to_owned())
    }

    /// A backend failure.
    pub fn io_error(message: &str) -> (r: Self)
        ensures
            r matches HtsGetError::IoError(m) && m@ == message@,
    {
        Self::IoError(message.to_owned())
    }

    /// A header or index could not be read.
    pub fn parse_error(message: &str) -> (r: Self)
        ensures
            r matches HtsGetError::ParseError(m) && m@ == message@,
    {
        Self::ParseError(message.to_owned())
    }

    /// An invariant violation.
    pub fn internal_error(message: &str) -> (r: Self)
        ensures
            r matches HtsGetError::InternalError(m) && m@ == message@,
    {
        Self::InternalError(message.to_owned())
    }
}

/// The headers to supply when requesting data from a url, as key/value
/// pairs with unique keys.
#[derive(Clone, Debug, PartialEq, Eq)]
pub struct Headers {
    entries: Vec<(String, String)>,
}

impl View for Headers {
    type V = Seq<(Seq<char>, Seq<char>)>;

    closed spec fn view(&self) -> Seq<(Seq<char>, Seq<char>)> {
        self.entries@.map_values(|p: (String, String)| (p.0@, p.1@))
    }
}

/// The value that inserting `v` leaves behind when `prev` was already
/// stored under the same key: values are joined with a comma.
pub open spec fn spec_join_value(prev: Seq<char>, v: Seq<char>) -> Seq<char> {
    if prev.len() == 0 {
        v
    } else {
        prev + ", "@ + v
    }
}

/// Keys of a header list are unique.
pub open spec fn hdr_wf(s: Seq<(Seq<char>, Seq<char>)>) -> bool {
    forall|i: int, j: int| 0 <= i < j < s.len() ==> (#[trigger] s[i]).0 != (#[trigger] s[j]).0
}

/// Whether some entry of the header list holds key `k`.
pub open spec fn hdr_has_key(s: Seq<(Seq<char>, Seq<char>)>, k: Seq<char>) -> bool {
    exists|j: int| 0 <= j < s.len() && (#[trigger] s[j]).0 == k
}

/// The value stored under key `k`, if any.
pub open spec fn hdr_get(s: Seq<(Seq<char>, Seq<char>)>, k: Seq<char>) -> Option<Seq<char>> {
    if hdr_has_key(s, k) {
        Some(s[choose|j: int| 0 <= j < s.len() && (#[trigger] s[j]).0 == k].1)
    } else {
        None
    }
}

impl Headers {
    /// Keys are unique.
    pub open spec fn wf(self) -> bool {
        hdr_wf(self@)
    }

    pub open spec fn spec_has_key(self, k: Seq<char>) -> bool {
        hdr_has_key(self@, k)
    }

    /// The value stored under key `k`, if any.
    pub open spec fn spec_get(self, k: Seq<char>) -> Option<Seq<char>> {
        hdr_get(self@, k)
    }

    /// Under well-formedness, the entry at any index is what `spec_get`
    /// returns for its key.
    pub proof fn lemma_get_at(self, j: int)
        requires
            self.wf(),
            0 <= j < self@.len(),
        ensures
            self.spec_get(self@[j].0) == Some(self@[j].1),
    {
        assert(self.spec_has_key(self@[j].0));
        let j2 = choose|j2: int| 0 <= j2 < self@.len() && (#[trigger] self@[j2]).0 == self@[j].0;
        assert(j2 == j);
    }

    /// Create headers from key/value pairs.
    pub fn new(entries: Vec<(String, String)>) -> (r: Self)
        requires
            forall|i: int, j: int|
                0 <= i < j < entries@.len() ==> (#[trigger] entries@[i]).0@ != (
                #[trigger] entries@[j]).0@,
        ensures
            r.wf(),
            r@ == entries@.map_values(|p: (String, String)| (p.0@, p.1@)),
    {
        Self { entries }
    }

    /// True when no header is stored.
    pub fn is_empty(&self) -> (r: bool)
        ensures
            r == (self@.len() == 0),
    {
        self.entries.is_empty()
    }

    /// Insert an entry. If the key is already present, the value is
    /// appended to the existing value, separated by a comma.
    pub fn insert(&mut self, key: &str, value: &str)
        requires
            old(self).wf(),
        ensures
            final(self).wf(),
            forall|j: int|
                0 <= j < old(self)@.len() && (#[trigger] old(self)@[j]).0 == key@ ==> final(self)@
                    =~= old(self)@.update(j, (key@, spec_join_value(old(self)@[j].1, value@))),
            (forall|j: int| 0 <= j < old(self)@.len() ==> (#[trigger] old(self)@[j]).0 != key@)
                ==> final(self)@ =~= old(self)@.push((key@, value@)),
    {
        let key_string = key.to_owned();
        let n = self.entries.len();
        let mut i: usize = 0;
        while i < n
            invariant
                *self == *old(self),
                self.wf(),
                key_string@ == key@,
                n == self.entries@.len(),
                i <= n,
                forall|j: int| 0 <= j < i ==> (#[trigger] self@[j]).0 != key@,
            decreases n - i,
        {
            assert(self@[i as int] == (self.entries@[i as int].0@, self.entries@[i as int].1@));
            if self.entries[i].0 == key_string {
                let ghost pre = *self;
                let prev = self.entries[i].1.clone();
                let joined = if prev.as_str().is_empty() {
                    value.to_owned()
                } else {
                    let mut s = prev;
                    s.append(", ");
                    s.append(value);
                    s
                };
                self.entries[i] = (key_string, joined);
                assert forall|a: int| 0 <= a < self@.len() implies self@[a] == pre@.update(
                    i as int, (key@, spec_join_value(pre@[i as int].1, value@)))[a] by {
                    assert(self@[a] == (self.entries@[a].0@, self.entries@[a].1@));
                    if a != i {
                        assert(self.entries@[a] == pre.entries@[a]);
                        assert(pre@[a] == (pre.entries@[a].0@, pre.entries@[a].1@));
                    }
                }
                assert(self@ =~= pre@.update(i as int, (key@, spec_join_value(
                    pre@[i as int].1, value@))));
                assert(self.wf()) by {
                    assert(pre@[i as int].0 == key@);
                    assert(forall|a: int| 0 <= a < self@.len() && a != i ==> self@[a]
                        == pre@[a]);
                }
                return ;
            }
            i += 1;
        }
        let ghost pre = *self;
        self.entries.push((key_string, value.to_owned()));
        assert forall|a: int| 0 <= a < self@.len() implies self@[a] == pre@.push(
            (key@, value@))[a] by {
            assert(self@[a] == (self.entries@[a].0@, self.entries@[a].1@));
            if a < pre@.len() {
                assert(pre@[a] == (pre.entries@[a].0@, pre.entries@[a].1@));
            }
        }
        assert(self@ =~= pre@.push((key@, value@)));
    }

    /// Insert an entry as `insert` does, returning the updated headers.
    pub fn with_header(self, key: &str, value: &str) -> (r: Self)
        requires
            self.wf(),
        ensures
            r.wf(),
            forall|j: int|
                0 <= j < self@.len() && (#[trigger] self@[j]).0 == key@ ==> r@ =~= self@.update(
                    j, (key@, spec_join_value(self@[j].1, value@))),
            (forall|j: int| 0 <= j < self@.len() ==> (#[trigger] self@[j]).0 != key@) ==> r@
                =~= self@.push((key@, value@)),
    {
        let mut out = self;
        out.insert(key, value);
        out
    }

    /// Store `value` under `key`, replacing any existing value.
    fn set_entry(&mut self, key: String, value: String)
        requires
            old(self).wf(),
        ensures
            final(self).wf(),
            final(self).spec_get(key@) == Some(value@),
            forall|k: Seq<char>| k != key@ ==> final(self).spec_get(k) == old(self).spec_get(k),
            forall|k: Seq<char>| #[trigger]
                final(self).spec_has_key(k) ==> old(self).spec_has_key(k) || k == key@,
    {
        let ghost pre = *old(self);
        let ghost kview = key@;
        let n = self.entries.len();
        let mut i: usize = 0;
        while i < n
            invariant
                *self == pre,
                pre == *old(self),
                pre.wf(),
                n == self.entries@.len(),
                i <= n,
                kview == key@,
                forall|j: int| 0 <= j < i ==> (#[trigger] self@[j]).0 != kview,
            decreases n - i,
        {
            assert(self@[i as int] == (self.entries@[i as int].0@, self.entries@[i as int].1@));
            if self.entries[i].0 == key {
                let ghost vview = value@;
                self.entries[i] = (key, value);
                assert forall|a: int| 0 <= a < self@.len() implies self@[a] == pre@.update(
                    i as int, (kview, vview))[a] by {
                    assert(self@[a] == (self.entries@[a].0@, self.entries@[a].1@));
                    if a != i {
                        assert(self.entries@[a] == pre.entries@[a]);
                        assert(pre@[a] == (pre.entries@[a].0@, pre.entries@[a].1@));
                    }
                }
                assert(self@ =~= pre@.update(i as int, (kview, vview)));
                assert(self.wf()) by {
                    assert(pre@[i as int].0 == kview);
                    assert(forall|a: int| 0 <= a < self@.len() && a != i ==> self@[a]
                        == pre@[a]);
                }
                proof {
                    assert forall|k: Seq<char>| k != kview implies final(self).spec_get(k)
                        == pre.spec_get(k) by {
                        Self::lemma_get_agree(pre, *self, k);
                    }
                    self.lemma_get_at(i as int);
                    assert forall|k: Seq<char>| #[trigger] self.spec_has_key(k)
                        implies pre.spec_has_key(k) || k == kview by {
                        let j = choose|j: int| 0 <= j < self@.len() && (#[trigger] self@[j]).0
                            == k;
                        if j != i {
                            assert(pre@[j] == self@[j]);
                            assert(pre.spec_has_key(k));
                        }
                    }
                }
                return ;
            }
            i += 1;
        }
        let ghost vview = value@;
        self.entries.push((key, value));
        assert forall|a: int| 0 <= a < self@.len() implies self@[a] == pre@.push(
            (kview, vview))[a] by {
            assert(self@[a] == (self.entries@[a].0@, self.entries@[a].1@));
            if a < pre@.len() {
                assert(pre@[a] == (pre.entries@[a].0@, pre.entries@[a].1@));
            }
        }
        assert(self@ =~= pre@.push((kview, vview)));
        assert(self.wf());
        proof {
            assert forall|k: Seq<char>| k != kview implies final(self).spec_get(k)
                == pre.spec_get(k) by {
                Self::lemma_get_agree(pre, *self, k);
            }
            self.lemma_get_at(self@.len() - 1);
            assert forall|k: Seq<char>| #[trigger] self.spec_has_key(k)
                implies pre.spec_has_key(k) || k == kview by {
                let j = choose|j: int| 0 <= j < self@.len() && (#[trigger] self@[j]).0 == k;
                if j < pre@.len() {
                    assert(pre@[j] == self@[j]);
                    assert(pre.spec_has_key(k));
                }
            }
        }
    }

    /// Two header lists whose entries for key `k` coincide index by index
    /// agree on `spec_get(k)`.
    proof fn lemma_get_agree(a: Headers, b: Headers, k: Seq<char>)
        requires
            a.wf(),
            b.wf(),
            forall|j: int| 0 <= j < a@.len() && (#[trigger] a@[j]).0 == k ==> j < b@.len()
                && b@[j] == a@[j],
            forall|j: int| 0 <= j < b@.len() && (#[trigger] b@[j]).0 == k ==> j < a@.len()
                && a@[j] == b@[j],
        ensures
            a.spec_get(k) == b.spec_get(k),
    {
        if a.spec_has_key(k) {
            let j = choose|j: int| 0 <= j < a@.len() && (#[trigger] a@[j]).0 == k;
            assert(b.spec_has_key(k));
            let j2 = choose|j2: int| 0 <= j2 < b@.len() && (#[trigger] b@[j2]).0 == k;
            assert(a@[j2] == b@[j2]);
        } else if b.spec_has_key(k) {
            let j = choose|j: int| 0 <= j < b@.len() && (#[trigger] b@[j]).0 == k;
            assert(a@[j] == b@[j]);
            assert(a.spec_has_key(k));
        }
    }

    /// Add all entries of `headers`, replacing values of keys already
    /// present.
    pub fn extend(&mut self, headers: Headers)
        requires
            old(self).wf(),
            headers.wf(),
        ensures
            final(self).wf(),
            forall|j: int| 0 <= j < headers@.len() ==> final(self).spec_get(
                (#[trigger] headers@[j]).0) == Some(headers@[j].1),
            forall|k: Seq<char>| !headers.spec_has_key(k) ==> final(self).spec_get(k) == old(
                self).spec_get(k),
            forall|k: Seq<char>| #[trigger]
                final(self).spec_has_key(k) ==> old(self).spec_has_key(k)
                    || headers.spec_has_key(k),
    {
        let ghost pre = *old(self);
        let ghost other = headers;
        let n = headers.entries.len();
        let mut rest = headers.entries;
        let mut i: usize = 0;
        while i < n
            invariant
                n == other@.len(),
                rest@.map_values(|p: (String, String)| (p.0@, p.1@)) == other@,
                i <= n,
                self.wf(),
                other.wf(),
                pre.wf(),
                forall|j: int| 0 <= j < i ==> self.spec_get((#[trigger] other@[j]).0)
                    == Some(other@[j].1),
                forall|k: Seq<char>| !other.spec_has_key(k) ==> self.spec_get(k)
                    == pre.spec_get(k),
                forall|k: Seq<char>| #[trigger]
                    self.spec_has_key(k) ==> pre.spec_has_key(k) || other.spec_has_key(k),
            decreases n - i,
        {
            assert(other@[i as int] == (rest@[i as int].0@, rest@[i as int].1@));
            let k = rest[i].0.clone();
            let v = rest[i].1.clone();
            assert((k@, v@) == other@[i as int]);
            self.set_entry(k, v);
            proof {
                assert forall|j: int| 0 <= j < i + 1 implies self.spec_get(
                    (#[trigger] other@[j]).0) == Some(other@[j].1) by {
                    if j < i && other@[j].0 != other@[i as int].0 {
                    }
                }
                assert forall|kk: Seq<char>| !other.spec_has_key(kk) implies self.spec_get(kk)
                    == pre.spec_get(kk) by {
                    assert(kk != other@[i as int].0);
                }
            }
            i += 1;
        }
    }

    /// The key/value pairs.
    pub fn into_inner(self) -> (r: Vec<(String, String)>)
        ensures
            r@.map_values(|p: (String, String)| (p.0@, p.1@)) == self@,
    {
        self.entries
    }

    /// A reference to the key/value pairs.
    pub fn as_ref_inner(&self) -> (r: &Vec<(String, String)>)
        ensures
            r@.map_values(|p: (String, String)| (p.0@, p.1@)) == self@,
    {
        &self.entries
    }
}

impl Default for Headers {
    /// Empty headers.
    fn default() -> (r: Self)
        ensures
            r@.len() == 0,
            r.wf(),
    {
        Self { entries: Vec::new() }
    }
}

/// A url from which raw data can be retrieved, with the headers to supply
/// and an optional class tag.
#[derive(Clone, Debug, PartialEq, Eq)]
pub struct Url {
    pub url: String,
    pub headers: Option<Headers>,
    pub class: Option<Class>,
}

impl Url {
    /// Whether the inner headers, where present, are well-formed.
    pub open spec fn wf(self) -> bool {
        self.headers matches Some(h) ==> h.wf()
    }

    /// Create a new url without headers or class.
    pub fn new(url: &str) -> (r: Self)
        ensures
            r.url@ == url@,
            r.headers is None,
            r.class is None,
            r.wf(),
    {
        Self { url: url.to_owned(), headers: None, class: None }
    }

    /// Add to the headers of the url; empty headers leave it unchanged.
    pub fn add_headers(self, headers: Headers) -> (r: Self)
        requires
            self.wf(),
            headers.wf(),
        ensures
            r.url == self.url,
            r.class == self.class,
            r.wf(),
            headers@.len() == 0 ==> r.headers == self.headers,
            headers@.len() > 0 ==> {
                &&& r.headers matches Some(h)
                &&& forall|j: int| 0 <= j < headers@.len() ==> h.spec_get(
                    (#[trigger] headers@[j]).0) == Some(headers@[j].1)
                &&& forall|k: Seq<char>| !headers.spec_has_key(k) ==> h.spec_get(k)
                    == hdr_get(self.spec_base_headers(), k)
                &&& forall|k: Seq<char>| #[trigger]
                    h.spec_has_key(k) ==> hdr_has_key(self.spec_base_headers(), k)
                        || headers.spec_has_key(k)
            },
    {
        if headers.is_empty() {
            self
        } else {
            let mut base = match self.headers {
                Some(h) => h,
                None => Headers::default(),
            };
            assert(base@ == self.spec_base_headers());
            base.extend(headers);
            Self { url: self.url, headers: Some(base), class: self.class }
        }
    }

    /// The view of the stored headers, or the empty view when none are
    /// stored.
    pub open spec fn spec_base_headers(self) -> Seq<(Seq<char>, Seq<char>)> {
        match self.headers {
            Some(h) => h@,
            None => Seq::<(Seq<char>, Seq<char>)>::empty(),
        }
    }

    /// Set the headers of the url; empty headers clear it.
    pub fn with_headers(self, headers: Headers) -> (r: Self)
        ensures
            r.url == self.url,
            r.class == self.class,
            headers@.len() == 0 ==> r.headers is None,
            headers@.len() > 0 ==> r.headers == Some(headers),
    {
        let empty = headers.is_empty();
        Self {
            headers: if empty {
                None
            } else {
                Some(headers)
            },
            ..self
        }
    }

    /// Set the class of the url from an optional value.
    pub fn set_class(self, class: Option<Class>) -> (r: Self)
        ensures
            r.url == self.url,
            r.headers == self.headers,
            r.class == class,
    {
        Self { class, ..self }
    }

    /// Set the class of the url.
    pub fn with_class(self, class: Class) -> (r: Self)
        ensures
            r.url == self.url,
            r.headers == self.headers,
            r.class == Some(class),
    {
        self.set_class(Some(class))
    }
}

/// The response for an htsget query: the format and the ordered list of
/// urls to fetch and concatenate.
#[derive(Clone, Debug, PartialEq, Eq)]
pub struct Response {
    pub format: Format,
    pub urls: Vec<Url>,
}

impl Response {
    /// Create a new response.
    pub fn new(format: Format, urls: Vec<Url>) -> (r: Self)
        ensures
            r.format == format,
            r.urls == urls,
    {
        Self { format, urls }
    }
}

/// A response wrapped the way the wire format nests it.
#[derive(Clone, Debug, PartialEq, Eq)]
pub struct JsonResponse {
    pub htsget: Response,
}

impl JsonResponse {
    /// Wrap a response.
    pub fn new(htsget: Response) -> (r: Self)
        ensures
            r.htsget == htsget,
    {
        Self { htsget }
    }
}

/// A tagged "all" value for fields and tags parameters.
#[derive(Clone, Copy, Debug, PartialEq, Eq, Structural)]
pub enum TaggedTypeAll {
    All,
}

/// Possible values for the fields parameter.
#[derive(Clone, Debug, PartialEq, Eq)]
pub enum Fields {
    /// Include all fields.
    Tagged(TaggedTypeAll),
    /// List of fields to include.
    List(Vec<String>),
}

/// Possible values for the tags parameter.
#[derive(Clone, Debug, PartialEq, Eq)]
pub enum Tags {
    /// Include all tags.
    Tagged(TaggedTypeAll),
    /// List of tags to include.
    List(Vec<String>),
}

/// The no-tags parameter.
#[derive(Clone, Debug, PartialEq, Eq)]
pub struct NoTags(pub Option<Vec<String>>);

/// One Crypt4GH key pair: the encryptor's private key and the recipient's
/// public key, as plain byte strings.
#[derive(Clone, Debug, PartialEq, Eq)]
pub struct KeyData {
    pub method: u8,
    pub privkey: Vec<u8>,
    pub recipient_pubkey: Vec<u8>,
}

/// The Crypt4GH keys configured for a query.
#[derive(Clone, Debug, PartialEq, Eq)]
pub struct C4GHKeys {
    keys: Vec<KeyData>,
}

impl C4GHKeys {
    /// Create keys from key data.
    pub fn new(keys: Vec<KeyData>) -> (r: Self)
        ensures
            r.keys() == keys,
    {
        Self { keys }
    }

    /// The inner key data.
    pub fn into_inner(self) -> (r: Vec<KeyData>)
        ensures
            r == self.keys(),
    {
        self.keys
    }

    pub closed spec fn keys(self) -> Vec<KeyData> {
        self.keys
    }
}

/// How the queried object is stored: plain, or wrapped in Crypt4GH.
#[derive(Clone, Debug, PartialEq, Eq)]
pub enum ObjectType {
    Plain,
    Crypt4GH { keys: C4GHKeys },
}

impl ObjectType {
    /// Whether this object type is Crypt4GH.
    pub fn is_crypt4gh(&self) -> (r: bool)
        ensures
            r == (self is Crypt4GH),
    {
        match self {
            ObjectType::Crypt4GH { .. } => true,
            ObjectType::Plain => false,
        }
    }
}

impl Default for ObjectType {
    /// Objects are plain unless configured otherwise.
    fn default() -> (r: Self)
        ensures
            r is Plain,
    {
        ObjectType::Plain
    }
}

/// The information of the raw HTTP request.
#[derive(Clone, Debug, PartialEq, Eq)]
pub struct Request {
    path: String,
    query: Vec<(String, String)>,
    headers: Headers,
}

impl Request {
    /// Create a new request.
    pub fn new(id: String, query: Vec<(String, String)>, headers: Headers) -> (r: Self)
        ensures
            r.spec_path()@ == id@,
            r.spec_query() == query,
            r.spec_headers() == headers,
    {
        Self { path: id, query, headers }
    }

    /// Create a new request with empty query and headers.
    pub fn new_with_id(id: String) -> (r: Self)
        ensures
            r.spec_path()@ == id@,
            r.spec_query()@.len() == 0,
            r.spec_headers()@.len() == 0,
            r.spec_headers().wf(),
    {
        Self::new(id, Vec::new(), Headers::default())
    }

    /// Set the request headers.
    pub fn with_headers(self, headers: Headers) -> (r: Self)
        ensures
            r.spec_path() == self.spec_path(),
            r.spec_query() == self.spec_query(),
            r.spec_headers() == headers,
    {
        Self { headers, ..self }
    }

    /// Get the path.
    pub fn path(&self) -> (r: &String)
        ensures
            r == self.spec_path(),
    {
        &self.path
    }

    /// Get the query parameters.
    pub fn query(&self) -> (r: &Vec<(String, String)>)
        ensures
            r == self.spec_query(),
    {
        &self.query
    }

    /// Get the headers.
    pub fn headers(&self) -> (r: &Headers)
        ensures
            r == self.spec_headers(),
    {
        &self.headers
    }

    pub closed spec fn spec_path(self) -> String {
        self.path
    }

    pub closed spec fn spec_query(self) -> Vec<(String, String)> {
        self.query
    }

    pub closed spec fn spec_headers(self) -> Headers {
        self.headers
    }
}

/// A query: all the parameters that can be used when searching for reads
/// or variants.
#[derive(Clone, Debug, PartialEq, Eq)]
pub struct Query {
    pub id: String,
    pub format: Format,
    pub class: Class,
    pub reference_name: Option<String>,
    /// The start and end positions are 0-based, half-open.
    pub interval: Interval,
    pub fields: Fields,
    pub tags: Tags,
    pub no_tags: NoTags,
    pub request: Request,
    pub object_type: ObjectType,
}

impl Query {
    /// Create a new query with a body class, no reference name and an
    /// unconstrained interval.
    pub fn new(id: &str, format: Format, request: Request, object_type: ObjectType) -> (r: Self)
        ensures
            r.id@ == id@,
            r.format == format,
            r.class == Class::Body,
            r.reference_name is None,
            r.interval.start is None,
            r.interval.end is None,
            r.request == request,
            r.object_type == object_type,
    {
        Self {
            id: id.to_owned(),
            format,
            class: Class::Body,
            reference_name: None,
            interval: Interval { start: None, end: None },
            fields: Fields::Tagged(TaggedTypeAll::All),
            tags: Tags::Tagged(TaggedTypeAll::All),
            no_tags: NoTags(None),
            request,
            object_type,
        }
    }

    /// Create a new query with a default request and a plain object type.
    pub fn new_with_defaults(id: &str, format: Format) -> (r: Self)
        ensures
            r.id@ == id@,
            r.format == format,
            r.class == Class::Body,
            r.reference_name is None,
            r.interval.start is None,
            r.interval.end is None,
            r.object_type is Plain,
    {
        let request = Request::new_with_id(id.to_owned());
        Self::new(id, format, request, ObjectType::Plain)
    }

    /// Set the id.
    pub fn set_id(&mut self, id: &str)
        ensures
            *final(self) == (Query { id: final(self).id, ..*old(self) }),
            final(self).id@ == id@,
    {
        self.id = id.to_owned();
    }

    /// Set the id and return the query.
    pub fn with_id(self, id: &str) -> (r: Self)
        ensures
            r == (Query { id: r.id, ..self }),
            r.id@ == id@,
    {
        Self { id: id.to_owned(), ..self }
    }

    /// Set the format.
    pub fn with_format(self, format: Format) -> (r: Self)
        ensures
            r == (Query { format, ..self }),
    {
        Self { format, ..self }
    }

    /// Set the class.
    pub fn with_class(self, class: Class) -> (r: Self)
        ensures
            r == (Query { class, ..self }),
    {
        Self { class, ..self }
    }

    /// Set the reference name.
    pub fn with_reference_name(self, reference_name: &str) -> (r: Self)
        ensures
            r == (Query { reference_name: r.reference_name, ..self }),
            r.reference_name matches Some(n) && n@ == reference_name@,
    {
        Self { reference_name: Some(reference_name.to_owned()), ..self }
    }

    /// Set the interval start.
    pub fn with_start(self, start: u32) -> (r: Self)
        ensures
            r == (Query { interval: r.interval, ..self }),
            r.interval == (Interval { start: Some(start), ..self.interval }),
    {
        Self { interval: Interval { start: Some(start), ..self.interval }, ..self }
    }

    /// Set the interval end.
    pub fn with_end(self, end: u32) -> (r: Self)
        ensures
            r == (Query { interval: r.interval, ..self }),
            r.interval == (Interval { end: Some(end), ..self.interval }),
    {
        Self { interval: Interval { end: Some(end), ..self.interval }, ..self }
    }

    /// Set the fields.
    pub fn with_fields(self, fields: Fields) -> (r: Self)
        ensures
            r == (Query { fields, ..self }),
    {
        Self { fields, ..self }
    }

    /// Set the tags.
    pub fn with_tags(self, tags: Tags) -> (r: Self)
        ensures
            r == (Query { tags, ..self }),
    {
        Self { tags, ..self }
    }

    /// Set the no-tags list.
    pub fn with_no_tags(self, no_tags: Vec<String>) -> (r: Self)
        ensures
            r == (Query { no_tags: NoTags(Some(no_tags)), ..self }),
    {
        Self { no_tags: NoTags(Some(no_tags)), ..self }
    }

    /// Set the object type and return the query.
    pub fn with_object_type(self, object_type: ObjectType) -> (r: Self)
        ensures
            r == (Query { object_type, ..self }),
    {
        Self { object_type, ..self }
    }

    /// Set the object type.
    pub fn set_object_type(&mut self, object_type: ObjectType)
        ensures
            *final(self) == (Query { object_type, ..*old(self) }),
    {
        self.object_type = object_type;
    }

    pub fn id(&self) -> (r: &str)
        ensures
            r@ == self.id@,
    {
        self.id.as_str()
    }

    pub fn format(&self) -> (r: Format)
        ensures
            r == self.format,
    {
        self.format
    }

    pub fn class(&self) -> (r: Class)
        ensures
            r == self.class,
    {
        self.class
    }

    pub fn reference_name(&self) -> (r: Option<&String>)
        ensures
            match r {
                Some(n) => self.reference_name == Some(*n),
                None => self.reference_name is None,
            },
    {
        self.reference_name.as_ref()
    }

    pub fn interval(&self) -> (r: Interval)
        ensures
            r == self.interval,
    {
        self.interval
    }

    pub fn fields(&self) -> (r: &Fields)
        ensures
            r == &self.fields,
    {
        &self.fields
    }

    pub fn tags(&self) -> (r: &Tags)
        ensures
            r == &self.tags,
    {
        &self.tags
    }

    pub fn no_tags(&self) -> (r: &NoTags)
        ensures
            r == &self.no_tags,
    {
        &self.no_tags
    }

    pub fn request(&self) -> (r: &Request)
        ensures
            r == &self.request,
    {
        &self.request
    }

    /// Get the object type of this query.
    pub fn object_type(&self) -> (r: &ObjectType)
        ensures
            r == &self.object_type,
    {
        &self.object_type
    }
}

} // verus!
