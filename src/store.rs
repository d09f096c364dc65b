//! The persistent store's protocol for its single report file: where a
//! write is staged before the atomic rename, and the integrity check that a
//! read must pass before its envelope may be trusted. The file operations
//! themselves belong to the caller.
use crate::envelope::{sealed, StoredReport};
use crate::text::{find_last, last_index_of, lemma_last_index_range};
use vstd::prelude::*;

verus! {

/// Why a read or write of the report file failed.
#[derive(Clone, Debug, PartialEq, Eq)]
pub enum StoreError {
    /// The report file does not exist.
    NotFound,
    /// The file system refused an operation; the text says which.
    Io(String),
    /// The file does not hold an envelope; the text says why.
    Parse(String),
    /// The envelope's collection time lies outside the representable range.
    TimestampOutOfRange,
    /// The recorded checksum is not that of the report: the file is corrupt.
    ChecksumMismatch,
}

/// The extension given to the staging file of a write.
pub open spec fn temp_extension() -> Seq<char> {
    seq!['j', 's', 'o', 'n', '.', 't', 'm', 'p']
}

/// The sibling path where a write of `path` is staged: the file name with
/// its extension (the part after its last '.', when that '.' does not start
/// the name) replaced by `json.tmp`, or with `.json.tmp` appended when it
/// has none.
pub open spec fn temp_path_of(path: Seq<char>) -> Seq<char> {
    let slash = last_index_of(path, '/');
    let dot = last_index_of(path, '.');
    if dot > slash + 1 {
        path.subrange(0, dot + 1) + temp_extension()
    } else {
        path + seq!['.'] + temp_extension()
    }
}

/// The staging path is never the report path itself, so a crash before the
/// rename leaves the committed file untouched.
pub proof fn lemma_temp_path_differs(path: Seq<char>)
    ensures
        temp_path_of(path) != path,
{
    let slash = last_index_of(path, '/');
    let dot = last_index_of(path, '.');
    lemma_last_index_range(path, '.');
    let t = temp_path_of(path);
    if dot > slash + 1 {
        if t == path {
            assert(t.len() == dot + 9);
            assert(t[dot + 5] == temp_extension()[4]);
            assert(t[dot + 5] == '.');
            lemma_nothing_after_last(path, '.', dot + 5);
        }
    } else {
        assert(t.len() > path.len());
    }
}

/// No occurrence of `c` follows its last one.
proof fn lemma_nothing_after_last(s: Seq<char>, c: char, k: int)
    requires
        last_index_of(s, c) < k < s.len(),
    ensures
        s[k] != c,
    decreases s.len(),
{
    lemma_last_index_range(s, c);
    let n = s.len();
    if s[n - 1] == c {
        assert(last_index_of(s, c) == n - 1);
    } else if k < n - 1 {
        assert(last_index_of(s, c) == last_index_of(s.subrange(0, n - 1), c));
        lemma_nothing_after_last(s.subrange(0, n - 1), c, k);
        assert(s.subrange(0, n - 1)[k] == s[k]);
    }
}

/// The store bound to one report file.
pub struct ReportStore {
    path: String,
}

impl ReportStore {
    /// A store for the report file at `path`.
    pub fn new(path: String) -> (r: Self)
        ensures
            r.spec_path() == path@,
    {
        ReportStore { path }
    }

    pub closed spec fn spec_path(&self) -> Seq<char> {
        self.path@
    }

    /// The report file's path.
    pub fn path(&self) -> (r: &String)
        ensures
            r@ == self.spec_path(),
    {
        &self.path
    }

    /// The sibling file where a write is staged before it is renamed onto
    /// the report file.
    pub fn temp_path(&self) -> (r: String)
        ensures
            r@ == temp_path_of(self.spec_path()),
            r@ != self.spec_path(),
    {
        proof {
            lemma_temp_path_differs(self.spec_path());
        }
        let p = self.path.as_str();
        let slash = find_last(p, '/');
        let dot = find_last(p, '.');
        let ext = "json.tmp";
        proof {
            reveal_strlit("json.tmp");
            assert(ext@ =~= temp_extension());
        }
        let has_extension = match (dot, slash) {
            (Some(d), Some(s)) => d > s && d - s > 1,
            (Some(d), None) => d > 0,
            (None, _) => false,
        };
        if has_extension {
            let d = dot.unwrap();
            let mut out = String::from_str(p.substring_char(0, d + 1));
            out.append(ext);
            assert(out@ =~= self.spec_path().subrange(0, d + 1) + temp_extension());
            out
        } else {
            let mut out = String::from_str(p);
            out.append(".");
            proof {
                reveal_strlit(".");
            }
            out.append(ext);
            assert(out@ =~= self.spec_path() + seq!['.'] + temp_extension());
            out
        }
    }

    /// The read protocol's last step: an envelope read from the file is
    /// handed out only if its checksum verifies and its time is in range.
    pub fn check_loaded(stored: StoredReport) -> (r: Result<StoredReport, StoreError>)
        ensures
            stored@.collected_at.wf() && sealed(stored@) ==> r == Ok::<StoredReport, StoreError>(stored),
            !stored@.collected_at.wf() ==> r == Err::<StoredReport, StoreError>(StoreError::TimestampOutOfRange),
            stored@.collected_at.wf() && !sealed(stored@) ==> r == Err::<StoredReport, StoreError>(StoreError::ChecksumMismatch),
    {
        if !stored.collected_at.is_valid() {
            Err(StoreError::TimestampOutOfRange)
        } else if !stored.verify() {
            Err(StoreError::ChecksumMismatch)
        } else {
            Ok(stored)
        }
    }
}

} // verus!
