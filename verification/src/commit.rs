//! The canonical description of one source-control commit.

use vstd::prelude::*;

verus! {

use vstd::string::StrSliceExecFns;
use vstd::string::StringExecFns;

/// One commit event, as carried over the wire.
#[derive(Debug, Clone, PartialEq)]
pub struct CommitInfo {
    pub hash: String,
    pub short_hash: String,
    pub author_name: String,
    pub author_email: String,
    pub committer_name: String,
    pub committer_email: String,
    pub message: String,
    pub timestamp: i64,
    pub repository_url: String,
    pub branch: String,
    pub files_changed: Vec<String>,
}

/// The mathematical view of a commit event.
#[verifier::ext_equal]
pub ghost struct CommitView {
    pub hash: Seq<char>,
    pub short_hash: Seq<char>,
    pub author_name: Seq<char>,
    pub author_email: Seq<char>,
    pub committer_name: Seq<char>,
    pub committer_email: Seq<char>,
    pub message: Seq<char>,
    pub timestamp: int,
    pub repository_url: Seq<char>,
    pub branch: Seq<char>,
    pub files_changed: Seq<Seq<char>>,
}

impl CommitView {
    /// A view that a `CommitInfo` value can hold: the timestamp fits its
    /// machine type.
    pub open spec fn wf(self) -> bool {
        i64::MIN <= self.timestamp <= i64::MAX
    }
}

impl View for CommitInfo {
    type V = CommitView;

    open spec fn view(&self) -> CommitView {
        CommitView {
            hash: self.hash@,
            short_hash: self.short_hash@,
            author_name: self.author_name@,
            author_email: self.author_email@,
            committer_name: self.committer_name@,
            committer_email: self.committer_email@,
            message: self.message@,
            timestamp: self.timestamp as int,
            repository_url: self.repository_url@,
            branch: self.branch@,
            files_changed: self.files_changed@.map_values(|f: String| f@),
        }
    }
}

/// The display prefix of a hash: its first seven characters, or the whole
/// hash when it is shorter than seven characters.
pub open spec fn spec_short_hash(h: Seq<char>) -> Seq<char> {
    if h.len() <= 7 {
        h
    } else {
        h.take(7)
    }
}

/// Derives the display prefix of a commit hash, clamped to the available
/// length.
pub fn short_hash_of(hash: &str) -> (r: String)
    ensures
        r@ == spec_short_hash(hash@),
{
    let len = hash.unicode_len();
    if len <= 7 {
        String::from_str(hash)
    } else {
        let p = hash.substring_char(0, 7);
        assert(p@ =~= hash@.take(7));
        String::from_str(p)
    }
}

} // verus!
