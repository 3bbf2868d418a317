//! Mock commit events for exercising the pipeline end to end.
//!
//! The event is a pure function of its inputs: the caller supplies the
//! hash and the timestamp, and the message and file list rotate through
//! fixed tables by iteration number.

use vstd::prelude::*;

verus! {

use vstd::string::StrSliceExecFns;
use vstd::string::StringExecFns;
use crate::commit::{spec_short_hash, short_hash_of, CommitInfo};
use crate::strutil::{push_str_chars, string_from_chars};

/// The rotation of mock commit messages.
pub open spec fn mock_messages() -> Seq<Seq<char>> {
    seq![
        "Add new feature for user authentication"@,
        "Fix bug in payment processing"@,
        "Update dependencies to latest versions"@,
        "Refactor database connection handling"@,
        "Add unit tests for core functionality"@,
        "Improve error handling in API endpoints"@,
        "Update documentation with new examples"@,
        "Optimize database queries for performance"@,
        "Add logging for better debugging"@,
        "Fix memory leak in background tasks"@,
        "Implement rate limiting for API"@,
        "Add support for multiple languages"@,
        "Fix CSS styling issues on mobile"@,
        "Add validation for user input"@,
        "Update CI/CD pipeline configuration"@,
        "Fix timezone handling in date calculations"@,
        "Add metrics collection for monitoring"@,
        "Implement caching for improved performance"@,
        "Fix race condition in concurrent operations"@,
        "Add backup and recovery functionality"@,
    ]
}

/// The rotation of mock file lists.
pub open spec fn mock_file_sets() -> Seq<Seq<Seq<char>>> {
    seq![
        seq!["src/main.rs"@, "Cargo.toml"@],
        seq!["src/auth.rs"@, "src/lib.rs"@, "tests/auth_test.rs"@],
        seq!["src/api/mod.rs"@, "src/api/handlers.rs"@],
        seq!["src/database.rs"@, "migrations/001_initial.sql"@],
        seq!["README.md"@, "docs/api.md"@],
        seq!["src/utils.rs"@, "src/config.rs"@, "src/errors.rs"@],
        seq!["frontend/src/App.js"@, "frontend/src/components/Login.js"@],
        seq!["docker-compose.yml"@, "Dockerfile"@],
        seq!["src/models/user.rs"@, "src/models/mod.rs"@],
        seq!["tests/integration_test.rs"@],
    ]
}

/// What `str::to_lowercase` returns: a function of the characters alone.
pub uninterp spec fn lower_of(s: Seq<char>) -> Seq<char>;

/// Relies on str::to_lowercase: the result depends on the input
/// characters alone, and an empty string stays empty.
#[verifier::external_body]
fn lowercase(s: &str) -> (r: String)
    ensures
        r@ == lower_of(s@),
        s@.len() == 0 ==> r@.len() == 0,
{
    s.to_lowercase()
}

/// Spaces become dots; all other characters are kept as they are.
pub open spec fn dot_for_space(c: char) -> char {
    if c == ' ' {
        '.'
    } else {
        c
    }
}

/// The mock author email: the lowercased author, spaces dotted, at
/// `example.com`.
pub open spec fn spec_mock_email(author: Seq<char>) -> Seq<char> {
    lower_of(author).map_values(|c: char| dot_for_space(c)) + "@example.com"@
}

/// Builds the mock author email.
fn mock_email(author: &str) -> (r: String)
    ensures
        r@ == spec_mock_email(author@),
{
    let lowered = lowercase(author);
    let lowered_str = lowered.as_str();
    let len = lowered_str.unicode_len();
    let mut v: Vec<char> = Vec::new();
    let mut i: usize = 0;
    while i < len
        invariant
            len == lowered_str@.len(),
            i <= len,
            v@ == lowered_str@.subrange(0, i as int).map_values(|c: char| dot_for_space(c)),
        decreases len - i,
    {
        let c = lowered_str.get_char(i);
        let d = if c == ' ' {
            '.'
        } else {
            c
        };
        v.push(d);
        assert(v@ =~= lowered_str@.subrange(0, i + 1 as int).map_values(
            |c: char| dot_for_space(c)));
        i = i + 1;
    }
    assert(lowered_str@.subrange(0, len as int) =~= lowered_str@);
    push_str_chars(&mut v, "@example.com");
    string_from_chars(&v)
}

/// Picks the mock message for an iteration.
fn mock_message(idx: u32) -> (r: String)
    requires
        idx < 20,
    ensures
        r@ == mock_messages()[idx as int],
{
    match idx {
        0 => String::from_str("Add new feature for user authentication"),
        1 => String::from_str("Fix bug in payment processing"),
        2 => String::from_str("Update dependencies to latest versions"),
        3 => String::from_str("Refactor database connection handling"),
        4 => String::from_str("Add unit tests for core functionality"),
        5 => String::from_str("Improve error handling in API endpoints"),
        6 => String::from_str("Update documentation with new examples"),
        7 => String::from_str("Optimize database queries for performance"),
        8 => String::from_str("Add logging for better debugging"),
        9 => String::from_str("Fix memory leak in background tasks"),
        10 => String::from_str("Implement rate limiting for API"),
        11 => String::from_str("Add support for multiple languages"),
        12 => String::from_str("Fix CSS styling issues on mobile"),
        13 => String::from_str("Add validation for user input"),
        14 => String::from_str("Update CI/CD pipeline configuration"),
        15 => String::from_str("Fix timezone handling in date calculations"),
        16 => String::from_str("Add metrics collection for monitoring"),
        17 => String::from_str("Implement caching for improved performance"),
        18 => String::from_str("Fix race condition in concurrent operations"),
        _ => String::from_str("Add backup and recovery functionality"),
    }
}

/// Picks the mock file list for an iteration.
fn mock_files(idx: u32) -> (r: Vec<String>)
    requires
        idx < 10,
    ensures
        r@.map_values(|f: String| f@) == mock_file_sets()[idx as int],
{
    let r: Vec<String> = match idx {
        0 => vec![String::from_str("src/main.rs"), String::from_str("Cargo.toml")],
        1 => vec![
            String::from_str("src/auth.rs"),
            String::from_str("src/lib.rs"),
            String::from_str("tests/auth_test.rs"),
        ],
        2 => vec![String::from_str("src/api/mod.rs"), String::from_str("src/api/handlers.rs")],
        3 => vec![
            String::from_str("src/database.rs"),
            String::from_str("migrations/001_initial.sql"),
        ],
        4 => vec![String::from_str("README.md"), String::from_str("docs/api.md")],
        5 => vec![
            String::from_str("src/utils.rs"),
            String::from_str("src/config.rs"),
            String::from_str("src/errors.rs"),
        ],
        6 => vec![
            String::from_str("frontend/src/App.js"),
            String::from_str("frontend/src/components/Login.js"),
        ],
        7 => vec![String::from_str("docker-compose.yml"), String::from_str("Dockerfile")],
        8 => vec![
            String::from_str("src/models/user.rs"),
            String::from_str("src/models/mod.rs"),
        ],
        _ => vec![String::from_str("tests/integration_test.rs")],
    };
    assert(r@.map_values(|f: String| f@) =~= mock_file_sets()[idx as int]);
    r
}

/// Builds one mock commit event. The hash and the timestamp come from the
/// caller; everything else is a function of the arguments: the message
/// and the file list rotate through the tables by iteration, and both
/// identities are the author with the derived mock email.
pub fn generate_mock_commit(
    repo_url: &str,
    author: &str,
    branch: &str,
    iteration: u32,
    commit_hash: &str,
    timestamp: i64,
) -> (r: CommitInfo)
    requires
        iteration >= 1,
    ensures
        r.hash@ == commit_hash@,
        r.short_hash@ == spec_short_hash(commit_hash@),
        r.author_name@ == author@,
        r.committer_name@ == author@,
        r.author_email@ == spec_mock_email(author@),
        r.committer_email@ == spec_mock_email(author@),
        r.message@ == mock_messages()[(iteration - 1) as int % 20],
        r.timestamp == timestamp,
        r.repository_url@ == repo_url@,
        r.branch@ == branch@,
        r.files_changed@.map_values(|f: String| f@) == mock_file_sets()[(iteration - 1) as int
            % 10],
{
    let message_index = (iteration - 1) % 20;
    let files_index = (iteration - 1) % 10;
    let author_email = mock_email(author);
    CommitInfo {
        hash: String::from_str(commit_hash),
        short_hash: short_hash_of(commit_hash),
        author_name: String::from_str(author),
        author_email: author_email.clone(),
        committer_name: String::from_str(author),
        committer_email: author_email,
        message: mock_message(message_index),
        timestamp,
        repository_url: String::from_str(repo_url),
        branch: String::from_str(branch),
        files_changed: mock_files(files_index),
    }
}

} // verus!
