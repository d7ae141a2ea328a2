//! The command line of the feed generator.

use vstd::prelude::*;
use vstd::string::*;
use crate::strings::{parse_u32, parse_u32_spec, starts_with_spec, starts_with_text, text_from, texts_equal};

verus! {

/// The options given on the command line.
pub struct CmdParams {
    pub url: String,
    pub unblur_nsfw: bool,
    pub allow_nsfw: bool,
    pub include_unavailable: bool,
    pub max_pages: u32,
    pub vrc_only: bool,
    pub convert_currency: bool,
    pub convert_target: String,
}

/// `CmdParams` with its texts as character sequences.
pub struct CmdParamsView {
    pub url: Seq<char>,
    pub unblur_nsfw: bool,
    pub allow_nsfw: bool,
    pub include_unavailable: bool,
    pub max_pages: u32,
    pub vrc_only: bool,
    pub convert_currency: bool,
    pub convert_target: Seq<char>,
}

impl View for CmdParams {
    type V = CmdParamsView;

    open spec fn view(&self) -> CmdParamsView {
        CmdParamsView {
            url: self.url@,
            unblur_nsfw: self.unblur_nsfw,
            allow_nsfw: self.allow_nsfw,
            include_unavailable: self.include_unavailable,
            max_pages: self.max_pages,
            vrc_only: self.vrc_only,
            convert_currency: self.convert_currency,
            convert_target: self.convert_target@,
        }
    }
}

/// The options before any argument is read: no address, at most 100 pages,
/// and every switch off.
pub open spec fn default_params() -> CmdParamsView {
    CmdParamsView {
        url: Seq::empty(),
        unblur_nsfw: false,
        allow_nsfw: false,
        include_unavailable: false,
        max_pages: 100,
        vrc_only: false,
        convert_currency: false,
        convert_target: Seq::empty(),
    }
}

/// The options after one more argument: a switch turns its option on, an
/// `https://` address becomes the store address, `--max-pages=<n>` sets a
/// positive page limit, and `--convert-currency=<code>` asks for prices in
/// that currency. Anything else, or a page limit that is not a positive
/// number, is an error (`None`).
pub open spec fn apply_arg(p: CmdParamsView, arg: Seq<char>) -> Option<CmdParamsView> {
    if arg == "--unblur-nsfw"@ {
        Some(CmdParamsView { unblur_nsfw: true, ..p })
    } else if arg == "--allow-nsfw"@ {
        Some(CmdParamsView { allow_nsfw: true, ..p })
    } else if arg == "--include-unavailable"@ {
        Some(CmdParamsView { include_unavailable: true, ..p })
    } else if arg == "--vrc-only"@ {
        Some(CmdParamsView { vrc_only: true, ..p })
    } else if starts_with_spec(arg, "https://"@) {
        Some(CmdParamsView { url: arg, ..p })
    } else if starts_with_spec(arg, "--max-pages="@) {
        match parse_u32_spec(arg.skip("--max-pages="@.len() as int)) {
            Some(max_pages) => if max_pages == 0 {
                None
            } else {
                Some(CmdParamsView { max_pages, ..p })
            },
            None => None,
        }
    } else if starts_with_spec(arg, "--convert-currency="@) {
        Some(
            CmdParamsView {
                convert_currency: true,
                convert_target: arg.skip("--convert-currency="@.len() as int),
                ..p
            },
        )
    } else {
        None
    }
}

/// The options after reading `args[1..n]` in order (`args[0]` is the
/// program's name).
pub open spec fn read_args(args: Seq<Seq<char>>, n: int) -> Option<CmdParamsView>
    decreases n,
{
    if n <= 1 {
        Some(default_params())
    } else {
        match read_args(args, n - 1) {
            Some(p) => apply_arg(p, args[n - 1]),
            None => None,
        }
    }
}

/// An argument that is not understood ends the reading for good.
proof fn lemma_read_args_stays_none(args: Seq<Seq<char>>, i: int, n: int)
    requires
        1 <= i <= n,
        read_args(args, i) is None,
    ensures
        read_args(args, n) is None,
    decreases n - i,
{
    if i < n {
        lemma_read_args_stays_none(args, i, n - 1);
    }
}

/// What `parse_arguments` returns: the options that all arguments give, when
/// every argument is understood and a store address is among them.
pub open spec fn parse_arguments_spec(args: Seq<Seq<char>>) -> Option<CmdParamsView> {
    match read_args(args, args.len() as int) {
        Some(p) => if p.url.len() == 0 {
            None
        } else {
            Some(p)
        },
        None => None,
    }
}

/// Reads the command line `args`, whose first element is the program's name.
pub fn parse_arguments(args: &Vec<String>) -> (r: Option<CmdParams>)
    ensures
        match r {
            Some(p) => parse_arguments_spec(args.deep_view()) == Some(p@),
            None => parse_arguments_spec(args.deep_view()) is None,
        },
{
    let ghost argv = args.deep_view();
    let mut cmd_params = CmdParams {
        url: String::new(),
        unblur_nsfw: false,
        allow_nsfw: false,
        include_unavailable: false,
        max_pages: 100,
        vrc_only: false,
        convert_currency: false,
        convert_target: String::new(),
    };
    assert(cmd_params@ == default_params());
    let mut i: usize = 1;
    while i < args.len()
        invariant
            1 <= i,
            i <= args.len() || i == 1,
            argv == args.deep_view(),
            argv.len() == args@.len(),
            read_args(argv, i as int) == Some(cmd_params@),
        decreases args.len() - i,
    {
        let arg = args[i].as_str();
        assert(argv[i as int] == arg@);
        proof {
            reveal_strlit("--unblur-nsfw");
            reveal_strlit("--allow-nsfw");
            reveal_strlit("--include-unavailable");
            reveal_strlit("--vrc-only");
            reveal_strlit("--max-pages=");
            reveal_strlit("--convert-currency=");
        }
        if texts_equal(arg, "--unblur-nsfw") {
            cmd_params.unblur_nsfw = true;
        } else if texts_equal(arg, "--allow-nsfw") {
            cmd_params.allow_nsfw = true;
        } else if texts_equal(arg, "--include-unavailable") {
            cmd_params.include_unavailable = true;
        } else if texts_equal(arg, "--vrc-only") {
            cmd_params.vrc_only = true;
        } else if starts_with_text(arg, "https://") {
            cmd_params.url = arg.to_string();
        } else if starts_with_text(arg, "--max-pages=") {
            let max_pages_str = text_from(arg, 12);
            let max_pages = match parse_u32(max_pages_str.as_str()) {
                Some(max) => max,
                None => {
                    proof {
                        lemma_read_args_stays_none(argv, i + 1, argv.len() as int);
                    }
                    return None;
                },
            };
            if max_pages == 0 {
                proof {
                    lemma_read_args_stays_none(argv, i + 1, argv.len() as int);
                }
                return None;
            }
            cmd_params.max_pages = max_pages;
        } else if starts_with_text(arg, "--convert-currency=") {
            cmd_params.convert_currency = true;
            cmd_params.convert_target = text_from(arg, 19);
        } else {
            proof {
                lemma_read_args_stays_none(argv, i + 1, argv.len() as int);
            }
            return None;
        }
        i = i + 1;
    }
    proof {
        if argv.len() == 0 {
            assert(read_args(argv, 0) == read_args(argv, 1));
        }
    }
    assert(read_args(argv, argv.len() as int) == Some(cmd_params@));
    if cmd_params.url.as_str().is_empty() {
        return None;
    }
    assert(cmd_params@.url.len() != 0);
    Some(cmd_params)
}

} // verus!
