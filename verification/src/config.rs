//! Search configuration, assembled from command-line arguments.
//!
//! The caller passes, next to the raw arguments, one boolean per option
//! saying whether the surrounding environment asks for it; an option is on
//! when its flag is among the arguments or the environment asks for it. The
//! query is the second-to-last argument, the file path the last. Reading the
//! actual process environment is the caller's business, not this module's.

use vstd::prelude::*;

use crate::strutil::str_eq;

verus! {

/// Everything one search invocation needs to know.
pub struct Config {
    pub query: String,
    pub file_path: String,
    pub ignore_case: bool,
    pub show_line_numbers: bool,
    pub only_match_words: bool,
    pub inverted_match: bool,
}

/// Some argument equals the given flag.
pub open spec fn has_flag(args: Seq<String>, flag: Seq<char>) -> bool {
    exists|i: int| 0 <= i < args.len() && (#[trigger] args[i])@ == flag
}

/// Whether one of the arguments is exactly the given flag.
fn args_contain(args: &Vec<String>, flag: &str) -> (r: bool)
    ensures
        r == has_flag(args@, flag@),
{
    let mut i: usize = 0;
    while i < args.len()
        invariant
            i <= args@.len(),
            forall|k: int| 0 <= k < i ==> (#[trigger] args@[k])@ != flag@,
        decreases args@.len() - i,
    {
        if str_eq(args[i].as_str(), flag) {
            return true;
        }
        i = i + 1;
    }
    false
}

impl Config {
    /// A configuration with exactly the given parts.
    pub fn new(
        query: String,
        file_path: String,
        ignore_case: bool,
        show_line_numbers: bool,
        only_match_words: bool,
        inverted_match: bool,
    ) -> (r: Self)
        ensures
            r.query == query,
            r.file_path == file_path,
            r.ignore_case == ignore_case,
            r.show_line_numbers == show_line_numbers,
            r.only_match_words == only_match_words,
            r.inverted_match == inverted_match,
    {
        Self { query, file_path, ignore_case, show_line_numbers, only_match_words, inverted_match }
    }

    /// Builds a configuration from the raw arguments and, per option, the
    /// environment's say. The query is the second-to-last argument and must
    /// neither be empty nor begin with `'-'`; the file path is the last
    /// argument, under the same conditions. Each failure names its reason.
    pub fn build(
        args: &Vec<String>,
        env_ignore_case: bool,
        env_show_line_numbers: bool,
        env_only_match_words: bool,
        env_inverted_match: bool,
    ) -> (r: Result<Self, &'static str>)
        ensures
            args@.len() < 3 ==> (r matches Err(m) && m@ == "Not enough arguments"@),
            args@.len() >= 3 ==> ({
                let q = args@[args@.len() - 2]@;
                let f = args@[args@.len() - 1]@;
                &&& (q.len() > 0 && q[0] == '-') ==> (r matches Err(m) && m@
                    == "Query argument missing"@)
                &&& q.len() == 0 ==> (r matches Err(m) && m@ == "Query can not be empty"@)
                &&& (q.len() > 0 && q[0] != '-' && f.len() > 0 && f[0] == '-') ==> (r matches Err(m)
                    && m@ == "File path argument missing"@)
                &&& (q.len() > 0 && q[0] != '-' && f.len() == 0) ==> (r matches Err(m) && m@
                    == "File path can not be empty"@)
                &&& (q.len() > 0 && q[0] != '-' && f.len() > 0 && f[0] != '-') ==> (r matches Ok(c)
                    && c.query@ == q && c.file_path@ == f && c.ignore_case == (has_flag(
                    args@,
                    "-i"@,
                ) || env_ignore_case) && c.show_line_numbers == (has_flag(args@, "-n"@)
                    || env_show_line_numbers) && c.only_match_words == (has_flag(args@, "-w"@)
                    || env_only_match_words) && c.inverted_match == (has_flag(args@, "-v"@)
                    || env_inverted_match))
            }),
    {
        if args.len() < 3 {
            return Err("Not enough arguments");
        }
        let query = args[args.len() - 2].clone();
        if query.as_str().is_empty() {
            return Err("Query can not be empty");
        }
        if query.as_str().get_char(0) == '-' {
            return Err("Query argument missing");
        }
        let file_path = args[args.len() - 1].clone();
        if file_path.as_str().is_empty() {
            return Err("File path can not be empty");
        }
        if file_path.as_str().get_char(0) == '-' {
            return Err("File path argument missing");
        }
        let ignore_case = args_contain(args, "-i") || env_ignore_case;
        let show_line_numbers = args_contain(args, "-n") || env_show_line_numbers;
        let only_match_words = args_contain(args, "-w") || env_only_match_words;
        let inverted_match = args_contain(args, "-v") || env_inverted_match;
        Ok(
            Self {
                query,
                file_path,
                ignore_case,
                show_line_numbers,
                only_match_words,
                inverted_match,
            },
        )
    }
}

} // verus!
