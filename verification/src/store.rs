//! Where the tasks are stored: the choice of the store directory, and the
//! key that names a project in the shared directory.
use vstd::prelude::*;

use sha2::{Digest, Sha256};

use crate::config::{path_join, ArchiveConfig};
use crate::json::hex_digit;
use crate::sync::utf8;
use crate::text::{
    cat2, cat3, has_prefix, owned, push_str, replace, replace_char, rsplit_once, rsplit_once_spec, split_once,
    split_once_spec, strip_prefix, strip_prefix_spec, trim_end_matches, trim_end_pat, trim_start_char, trim_start_matches,
};

verus! {

/// What a write to the store does besides writing.
pub struct WriteOptions {
    /// Archive old completed work on each write, with these settings.
    pub auto_archive: Option<ArchiveConfig>,
}

/// The SHA-256 digest of some bytes, as the `sha2` crate computes it.
pub uninterp spec fn sha256(bytes: Seq<u8>) -> Seq<u8>;

/// `sha2::Sha256::digest`: claimed to give `sha256(bytes)`, 32 bytes long.
#[verifier::external_body]
fn sha256_digest(bytes: &[u8]) -> (r: Vec<u8>)
    ensures
        r@ == sha256(bytes@),
        r@.len() == 32,
{
    Sha256::digest(bytes).to_vec()
}

/// Two lower-case hexadecimal digits of a byte.
pub open spec fn byte_hex(b: u8) -> Seq<char> {
    seq![hex_digit((b / 16) as nat), hex_digit((b % 16) as nat)]
}

/// The hexadecimal digits of some bytes.
pub open spec fn bytes_hex(bytes: Seq<u8>) -> Seq<char>
    decreases bytes.len(),
{
    if bytes.len() == 0 {
        Seq::empty()
    } else {
        bytes_hex(bytes.drop_last()) + byte_hex(bytes.last())
    }
}

/// The first six bytes of the SHA-256 of a text, in hexadecimal.
pub open spec fn short_hash_spec(s: Seq<char>) -> Seq<char> {
    bytes_hex(sha256(utf8(s)).take(6))
}

/// A short hash of a text: twelve hexadecimal digits.
pub fn short_hash(input: &str) -> (r: String)
    ensures
        r@ == short_hash_spec(input@),
{
    let bytes = crate::sync::utf8_bytes(input);
    let digest = sha256_digest(bytes);
    let ghost dv = digest@;
    let mut r = String::new();
    let mut i: usize = 0;
    assert(r@ =~= bytes_hex(dv.take(0)));
    while i < 6
        invariant
            i <= 6,
            dv == digest@,
            dv.len() == 32,
            r@ == bytes_hex(dv.take(i as int)),
        decreases 6 - i,
    {
        assert(dv.take(i + 1).drop_last() =~= dv.take(i as int));
        let b = digest[i];
        crate::text::push_char(&mut r, crate::json::hex((b / 16) as u32));
        crate::text::push_char(&mut r, crate::json::hex((b % 16) as u32));
        assert(r@ =~= bytes_hex(dv.take(i + 1)));
        i = i + 1;
    }
    r
}

/// A key for a git remote URL: host and path joined by a dash, the path
/// without leading slashes, a `.git` suffix, or inner slashes; an URL of
/// another shape is keyed by its hash.
pub open spec fn normalize_spec(url: Seq<char>) -> Seq<char> {
    let fallback = "url-"@ + short_hash_spec(url);
    let parts = match strip_prefix_spec(url, "git@"@) {
        Some(rest) => split_once_spec(rest, ":"@),
        None => match split_once_spec(url, "://"@) {
            Some((_, rest)) => {
                let without_user = match rsplit_once_spec(rest, '@') {
                    Some((_, r)) => r,
                    None => rest,
                };
                split_once_spec(without_user, "/"@)
            },
            None => None,
        },
    };
    match parts {
        Some((host, path)) => host + "-"@ + replace_char(trim_end_pat(trim_start_char(path, '/'), ".git"@), '/', "-"@),
        None => fallback,
    }
}

/// Keys a git remote URL.
pub fn normalize_git_url(url: &str) -> (r: String)
    ensures
        r@ == normalize_spec(url@),
{
    let parts = match strip_prefix(url, "git@") {
        Some(rest) => split_once(rest.as_str(), ":"),
        None => match split_once(url, "://") {
            Some((_, rest)) => {
                let without_user = match rsplit_once(rest.as_str(), '@') {
                    Some((_, r)) => r,
                    None => rest,
                };
                split_once(without_user.as_str(), "/")
            },
            None => None,
        },
    };
    match parts {
        Some((host, path)) => {
            let trimmed = trim_start_matches(path.as_str(), '/');
            let bare = trim_end_matches(trimmed.as_str(), ".git");
            let mut r = cat2(host.as_str(), "-");
            push_str(&mut r, replace(bare.as_str(), '/', "-").as_str());
            r
        },
        None => cat2("url-", short_hash(url).as_str()),
    }
}

/// The key of a project: its normalized `origin` remote when it has one,
/// else a hash of its directory.
pub open spec fn project_key_spec(remote: Option<Seq<char>>, cwd: Seq<char>) -> Seq<char> {
    match remote {
        Some(r) => if r.len() > 0 {
            normalize_spec(r)
        } else {
            "path-"@ + short_hash_spec(cwd)
        },
        None => "path-"@ + short_hash_spec(cwd),
    }
}

/// Keys a project, given its `origin` remote URL (trimmed, when git
/// reported one) and its directory.
pub fn project_key(remote: Option<&str>, cwd: &str) -> (r: String)
    ensures
        r@ == project_key_spec(crate::relations::opt_str(remote), cwd@),
{
    match remote {
        Some(u) => {
            if crate::text::chars_of(u).len() > 0 {
                return normalize_git_url(u);
            }
        },
        None => {},
    }
    cat2("path-", short_hash(cwd).as_str())
}

/// Where the store is, as far as the settings decide it.
pub enum StoreChoice {
    /// A directory given outright.
    Given(String),
    /// The project's directory under the tool's shared `projects` directory.
    Centralized,
    /// `.dex` in the repository, or `local` in the tool's directory outside one.
    ByRepository,
}

/// The store's place by precedence: `--storage-path`, then
/// `storage.file.path`, then `DEX_STORAGE_PATH`, then the mode.
pub fn store_choice(cli_path: Option<&str>, config_path: Option<&str>, env_path: Option<&str>, centralized: bool) -> (r: StoreChoice)
    ensures
        match r {
            StoreChoice::Given(p) => Some(p@) == (match cli_path {
                Some(c) => Some(c@),
                None => match config_path {
                    Some(c) => Some(c@),
                    None => crate::relations::opt_str(env_path),
                },
            }),
            StoreChoice::Centralized => cli_path is None && config_path is None && env_path is None && centralized,
            StoreChoice::ByRepository => cli_path is None && config_path is None && env_path is None && !centralized,
        },
{
    if let Some(p) = cli_path {
        return StoreChoice::Given(owned(p));
    }
    if let Some(p) = config_path {
        return StoreChoice::Given(owned(p));
    }
    if let Some(p) = env_path {
        return StoreChoice::Given(owned(p));
    }
    if centralized {
        StoreChoice::Centralized
    } else {
        StoreChoice::ByRepository
    }
}

/// The shared store of a project: `projects/<key>` in the tool's directory.
pub fn centralized_dir(dex_home: &str, key: &str) -> (r: String)
    ensures
        r@ == path_join(path_join(dex_home@, "projects"@), key@),
{
    let projects = crate::config::join_path(dex_home, "projects");
    crate::config::join_path(projects.as_str(), key)
}

/// The store inside or outside a repository: `.dex` at the repository's
/// root, else `local` in the tool's directory.
pub fn repository_dir(git_root: Option<&str>, dex_home: &str) -> (r: String)
    ensures
        r@ == match git_root {
            Some(root) => path_join(root@, ".dex"@),
            None => path_join(dex_home@, "local"@),
        },
{
    match git_root {
        Some(root) => crate::config::join_path(root, ".dex"),
        None => crate::config::join_path(dex_home, "local"),
    }
}

} // verus!
