//! Turning a raw argument list into a validated search configuration.
//!
//! The argument list is the full process argument list: the program name,
//! then the query, then the file name, then any option arguments. An option
//! argument is a `-` followed by option letters; the only recognized letter
//! is `i`, which asks for case-insensitive search. A bare `-` is refused as
//! an unsupported empty option rather than ignored.

use vstd::prelude::*;

use vstd::string::StrSliceExecFns;
use vstd::string::StringExecFns;

verus! {

/// A validated search configuration.
#[derive(Debug)]
pub struct Config {
    pub query: String,
    pub filename: String,
    pub case_sensitive: bool,
}

/// Why an argument list was refused.
#[derive(Debug)]
pub enum ParseError {
    /// Fewer than three arguments: no query or no file name was given.
    InsufficientArguments,
    /// An option letter other than `i`, or a bare `-` (named by the
    /// empty string).
    UnsupportedOption(String),
    /// A trailing argument that is not an option argument.
    UnexpectedArgument(String),
}

/// A trailing argument counts as an option argument when it starts with `-`.
pub open spec fn is_option_arg(a: Seq<char>) -> bool {
    a.len() >= 1 && a[0] == '-'
}

/// A well-formed option argument: `-` followed by one or more option
/// letters, all of them the recognized letter `i`.
pub open spec fn arg_ok(a: Seq<char>) -> bool {
    a.len() >= 2 && a[0] == '-' && (forall|j: int| 1 <= j < a.len() ==> a[j] == 'i')
}

/// Every trailing argument of the list is a well-formed option argument.
pub open spec fn args_ok(args: Seq<Seq<char>>) -> bool {
    forall|k: int| 3 <= k < args.len() ==> arg_ok(#[trigger] args[k])
}

/// Position of the first letter of an option argument that is not `i`.
pub open spec fn is_first_bad_option(a: Seq<char>, j: int) -> bool {
    1 <= j < a.len() && a[j] != 'i' && (forall|m: int| 1 <= m < j ==> a[m] == 'i')
}

/// Position of the first trailing argument that is not well formed.
pub open spec fn is_first_bad_arg(args: Seq<Seq<char>>, k: int) -> bool {
    3 <= k < args.len() && !arg_ok(args[k]) && (forall|m: int|
        3 <= m < k ==> arg_ok(#[trigger] args[m]))
}

/// The error that an ill-formed trailing argument produces: its first
/// offending option letter, the empty option of a bare `-`, or the whole
/// argument where it is no option argument at all.
pub open spec fn arg_error_matches(a: Seq<char>, e: ParseError) -> bool {
    if !is_option_arg(a) {
        e matches ParseError::UnexpectedArgument(t) && t@ == a
    } else if a.len() == 1 {
        e matches ParseError::UnsupportedOption(t) && t@ == Seq::<char>::empty()
    } else {
        exists|j: int|
            #[trigger] is_first_bad_option(a, j) && (e matches ParseError::UnsupportedOption(t)
                && t@ == seq![a[j]])
    }
}

/// After successful parsing the search is case-sensitive unless the
/// environment asked for case-insensitive search or an option argument
/// was given.
pub open spec fn spec_case_sensitive(args: Seq<Seq<char>>, env_case_insensitive: bool) -> bool {
    !env_case_insensitive && !(exists|k: int|
        3 <= k < args.len() && arg_ok(#[trigger] args[k]))
}

impl Config {
    /// Parse the full process argument list. `env_case_insensitive` is
    /// whether the environment asked for case-insensitive search; an
    /// explicit `i` option asks for it regardless.
    pub fn new(args: &Vec<String>, env_case_insensitive: bool) -> (r: Result<Config, ParseError>)
        ensures
            match r {
                Ok(cfg) => {
                    &&& args.deep_view().len() >= 3
                    &&& args_ok(args.deep_view())
                    &&& cfg.query@ == args.deep_view()[1]
                    &&& cfg.filename@ == args.deep_view()[2]
                    &&& cfg.case_sensitive == spec_case_sensitive(
                        args.deep_view(),
                        env_case_insensitive,
                    )
                },
                Err(e) => {
                    ||| (args.deep_view().len() < 3 && e == ParseError::InsufficientArguments)
                    ||| (exists|k: int|
                        #[trigger] is_first_bad_arg(args.deep_view(), k) && arg_error_matches(
                            args.deep_view()[k],
                            e,
                        ))
                },
            },
    {
        let ghost dv = args.deep_view();
        if args.len() < 3 {
            return Err(ParseError::InsufficientArguments);
        }
        let mut case_sensitive = !env_case_insensitive;
        let mut k: usize = 3;
        while k < args.len()
            invariant
                3 <= k <= dv.len(),
                dv == args.deep_view(),
                dv.len() == args@.len(),
                dv.len() >= 3,
                forall|m: int| 3 <= m < k ==> arg_ok(#[trigger] dv[m]),
                case_sensitive == (!env_case_insensitive && !(exists|m: int|
                    3 <= m < k && arg_ok(#[trigger] dv[m]))),
            decreases dv.len() - k,
        {
            let a: &String = &args[k];
            proof {
                assert(a@ == dv[k as int]);
            }
            let alen = a.as_str().unicode_len();
            if alen == 0 || a.as_str().get_char(0) != '-' {
                proof {
                    assert(is_first_bad_arg(dv, k as int));
                }
                return Err(ParseError::UnexpectedArgument(a.clone()));
            }
            if alen == 1 {
                proof {
                    assert(is_first_bad_arg(dv, k as int));
                }
                return Err(ParseError::UnsupportedOption(String::new()));
            }
            let mut j: usize = 1;
            while j < alen
                invariant
                    1 <= j <= alen,
                    alen == a@.len(),
                    a@.len() >= 2,
                    a@[0] == '-',
                    a@ == dv[k as int],
                    3 <= k < dv.len(),
                    dv == args.deep_view(),
                    forall|m: int| 3 <= m < k ==> arg_ok(#[trigger] dv[m]),
                    forall|m: int| 1 <= m < j ==> a@[m] == 'i',
                decreases alen - j,
            {
                let c = a.as_str().get_char(j);
                if c != 'i' {
                    let op = a.as_str().substring_char(j, j + 1).to_owned();
                    proof {
                        assert(op@ =~= seq![a@[j as int]]);
                        assert(is_first_bad_option(a@, j as int));
                        assert(!arg_ok(dv[k as int]));
                        assert(is_first_bad_arg(dv, k as int));
                    }
                    return Err(ParseError::UnsupportedOption(op));
                }
                j = j + 1;
            }
            proof {
                assert(arg_ok(dv[k as int]));
            }
            case_sensitive = false;
            k = k + 1;
        }
        let query = args[1].clone();
        let filename = args[2].clone();
        proof {
            assert(query@ == dv[1]);
            assert(filename@ == dv[2]);
        }
        Ok(Config { query, filename, case_sensitive })
    }
}

/// The text naming a parse error, as it appears in the error message.
pub open spec fn spec_error_text(e: ParseError) -> Seq<char> {
    match e {
        ParseError::InsufficientArguments => "Unsufficient arguments"@,
        ParseError::UnsupportedOption(op) => "Unsupported option `"@ + op@ + "`"@,
        ParseError::UnexpectedArgument(t) => "Unexpected argument "@ + t@,
    }
}

/// The full error message of a parse error, under a given program name:
/// the program name, the error text, and a usage line.
pub open spec fn spec_message(e: ParseError, program: Seq<char>) -> Seq<char> {
    program + ": "@ + spec_error_text(e) + "\nUsage: "@ + program + " "@ + "<query> <file> [-i]"@
}

impl ParseError {
    /// Render the error message this parse error is reported with.
    pub fn message(&self, program: &str) -> (r: String)
        ensures
            r@ == spec_message(*self, program@),
    {
        let mut s = String::new();
        s.append(program);
        s.append(": ");
        match self {
            ParseError::InsufficientArguments => {
                s.append("Unsufficient arguments");
            },
            ParseError::UnsupportedOption(op) => {
                s.append("Unsupported option `");
                s.append(op.as_str());
                s.append("`");
            },
            ParseError::UnexpectedArgument(t) => {
                s.append("Unexpected argument ");
                s.append(t.as_str());
            },
        }
        s.append("\nUsage: ");
        s.append(program);
        s.append(" ");
        s.append("<query> <file> [-i]");
        proof {
            assert(s@ =~= spec_message(*self, program@));
        }
        s
    }
}

} // verus!
