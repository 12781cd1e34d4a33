//! The errors of the local cache of semantic conventions, schemas and other
//! assets.
use vstd::prelude::*;

verus! {

/// An error that can occur while caching assets.
pub enum Error {
    /// The home directory was not found.
    HomeDirNotFound,
    /// The cache directory could not be created.
    CacheDirNotCreated {
        /// The error message.
        message: String,
    },
    /// The git repository could not be created.
    GitRepoNotCreated {
        /// The URL of the repository.
        repo_url: String,
        /// The error message.
        message: String,
    },
    /// A git error occurred while cloning a repository.
    GitError {
        /// The URL of the repository.
        repo_url: String,
        /// The error message.
        message: String,
    },
}

/// The text that reports a cache error.
pub open spec fn error_text(e: Error) -> Seq<char> {
    match e {
        Error::HomeDirNotFound => "Home directory not found"@,
        Error::CacheDirNotCreated { message } => "Cache directory not created: "@ + message@,
        Error::GitRepoNotCreated { repo_url, message } => "Git repo `"@ + repo_url@ + "` not created: "@ + message@,
        Error::GitError { repo_url, message } => "Git error occurred while cloning `"@ + repo_url@ + "`: "@ + message@,
    }
}

impl Error {
    /// The text that reports the error.
    pub fn to_text(&self) -> (r: String)
        ensures
            r@ == error_text(*self),
    {
        let mut out = String::new();
        match self {
            Error::HomeDirNotFound => {
                out.append("Home directory not found");
            },
            Error::CacheDirNotCreated { message } => {
                out.append("Cache directory not created: ");
                out.append(message.as_str());
            },
            Error::GitRepoNotCreated { repo_url, message } => {
                out.append("Git repo `");
                out.append(repo_url.as_str());
                out.append("` not created: ");
                out.append(message.as_str());
            },
            Error::GitError { repo_url, message } => {
                out.append("Git error occurred while cloning `");
                out.append(repo_url.as_str());
                out.append("`: ");
                out.append(message.as_str());
            },
        }
        proof {
            assert(out@ =~= error_text(*self));
        }
        out
    }
}

} // verus!
