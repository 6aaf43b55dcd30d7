//! The command line, and the check of the kernel that runs.
use vstd::prelude::*;

use crate::text;
use crate::text::{same_text, to_chars, to_text, trim};

verus! {

/// What the command line asks for.
#[derive(Debug)]
pub enum Invocation {
    /// Serve the page at this address.
    Run { listen: String, ignore_kernel_version: bool },
    /// Show the usage.
    Help,
}

/// What a command line asks for, with its texts as sequences of characters.
pub enum InvocationModel {
    Run { listen: Seq<char>, ignore_kernel_version: bool },
    Help,
}

impl View for Invocation {
    type V = InvocationModel;

    open spec fn view(&self) -> InvocationModel {
        match self {
            Invocation::Run { listen, ignore_kernel_version } => InvocationModel::Run {
                listen: listen@,
                ignore_kernel_version: *ignore_kernel_version,
            },
            Invocation::Help => InvocationModel::Help,
        }
    }
}

/// The texts of a row of arguments.
pub open spec fn texts(arguments: Seq<String>) -> Seq<Seq<char>> {
    arguments.map_values(|argument: String| argument@)
}

/// What the arguments ask for, given what those before them have set; or what is
/// wrong with them. The first that asks for help or is wrong decides.
pub open spec fn read_arguments(
    arguments: Seq<Seq<char>>,
    listen: Seq<char>,
    ignore_kernel_version: bool,
) -> Result<InvocationModel, Seq<char>>
    decreases arguments.len(),
{
    if arguments.len() == 0 {
        Ok(InvocationModel::Run { listen, ignore_kernel_version })
    } else if arguments[0] == "--listen"@ {
        if arguments.len() == 1 {
            Err("--listen requires an address"@)
        } else {
            read_arguments(arguments.skip(2), arguments[1], ignore_kernel_version)
        }
    } else if arguments[0] == "--ignore-kernel-version"@ {
        read_arguments(arguments.skip(1), listen, true)
    } else if arguments[0] == "--help"@ || arguments[0] == "-h"@ {
        Ok(InvocationModel::Help)
    } else {
        Err("Unknown argument: "@ + arguments[0])
    }
}

/// Reads the arguments behind the program's name.
pub fn parse_arguments(arguments: &[String]) -> (result: Result<Invocation, String>)
    ensures
        match result {
            Ok(invocation) => read_arguments(texts(arguments@), "0.0.0.0:3333"@, false) == Ok::<
                InvocationModel,
                Seq<char>,
            >(invocation@),
            Err(message) => read_arguments(texts(arguments@), "0.0.0.0:3333"@, false) == Err::<
                InvocationModel,
                Seq<char>,
            >(message@),
        },
{
    let ghost all = texts(arguments@);
    let mut listen = "0.0.0.0:3333".to_string();
    let mut ignore_kernel_version = false;
    let count: usize = arguments.len();
    let mut at: usize = 0;
    assert(all.skip(0) =~= all);
    while at < count
        invariant
            count == arguments@.len(),
            at <= count,
            all == texts(arguments@),
            read_arguments(all.skip(at as int), listen@, ignore_kernel_version) == read_arguments(
                all,
                "0.0.0.0:3333"@,
                false,
            ),
        decreases count - at,
    {
        let ghost left = all.skip(at as int);
        let argument = &arguments[at];
        assert(left[0] == argument@);
        if same_text(argument.as_str(), "--listen") {
            if at + 1 == count {
                return Err("--listen requires an address".to_string());
            }
            assert(left[1] == arguments@[at + 1]@);
            assert(left.skip(2) =~= all.skip(at + 2));
            listen = arguments[at + 1].clone();
            at = at + 2;
        } else if same_text(argument.as_str(), "--ignore-kernel-version") {
            assert(left.skip(1) =~= all.skip(at + 1));
            ignore_kernel_version = true;
            at = at + 1;
        } else if same_text(argument.as_str(), "--help") || same_text(argument.as_str(), "-h") {
            return Ok(Invocation::Help);
        } else {
            let mut message = "Unknown argument: ".to_string();
            message.append(argument.as_str());
            return Err(message);
        }
    }
    Ok(Invocation::Run { listen, ignore_kernel_version })
}

/// Why the kernel that runs is not the stock one, from its release or why that
/// could not be read. The bundled module carries the stock release in its
/// vermagic.
pub open spec fn kernel_complaint(
    ignore_kernel_version: bool,
    release: Result<Seq<char>, Seq<char>>,
) -> Option<Seq<char>> {
    if ignore_kernel_version {
        None
    } else {
        match release {
            Err(error) => Some("Reading the kernel release failed: "@ + error),
            Ok(content) => if text::trimmed(content) == "5.4.55"@ {
                None
            } else {
                Some(
                    "Kernel release is "@ + text::trimmed(content)
                        + "; expected 5.4.55. Use --ignore-kernel-version to skip this check"@,
                )
            },
        }
    }
}

/// Checks that the kernel that runs is the stock one.
pub fn check_kernel_version(ignore_kernel_version: bool, release: Result<&str, &str>) -> (result:
    Result<(), String>)
    ensures
        ({
            let content = match release {
                Ok(content) => Ok(content@),
                Err(error) => Err(error@),
            };
            match result {
                Ok(()) => kernel_complaint(ignore_kernel_version, content) is None,
                Err(message) => kernel_complaint(ignore_kernel_version, content) == Some(message@),
            }
        }),
{
    if ignore_kernel_version {
        return Ok(());
    }
    match release {
        Ok(content) => {
            let chars = to_chars(content);
            let trimmed = to_text(trim(&chars));
            if same_text(trimmed.as_str(), "5.4.55") {
                return Ok(());
            }
            let mut message = "Kernel release is ".to_string();
            message.append(trimmed.as_str());
            message.append("; expected 5.4.55. Use --ignore-kernel-version to skip this check");
            Err(message)
        },
        Err(error) => {
            let mut message = "Reading the kernel release failed: ".to_string();
            message.append(error);
            Err(message)
        },
    }
}

/// An option behind arguments that are in order counts: an address in place of
/// any before it, and the one that skips the kernel check wherever it stands.
pub proof fn law_later_option_counts(
    arguments: Seq<Seq<char>>,
    listen: Seq<char>,
    ignore: bool,
    address: Seq<char>,
)
    requires
        read_arguments(arguments, listen, ignore) matches Ok(InvocationModel::Run { .. }),
    ensures
        read_arguments(arguments + seq!["--listen"@, address], listen, ignore) == Ok::<
            InvocationModel,
            Seq<char>,
        >(
            InvocationModel::Run {
                listen: address,
                ignore_kernel_version: read_arguments(
                    arguments,
                    listen,
                    ignore,
                )->Ok_0->ignore_kernel_version,
            },
        ),
        read_arguments(arguments + seq!["--ignore-kernel-version"@], listen, ignore) == Ok::<
            InvocationModel,
            Seq<char>,
        >(
            InvocationModel::Run {
                listen: read_arguments(arguments, listen, ignore)->Ok_0->listen,
                ignore_kernel_version: true,
            },
        ),
    decreases arguments.len(),
{
    let served = seq!["--listen"@, address];
    let skipped = seq!["--ignore-kernel-version"@];
    if arguments.len() == 0 {
        reveal_strlit("--listen");
        reveal_strlit("--ignore-kernel-version");
        assert(skipped[0].len() != "--listen"@.len());
        assert(arguments + served =~= served);
        assert(arguments + skipped =~= skipped);
        assert(served.skip(2) =~= Seq::<Seq<char>>::empty());
        assert(skipped.skip(1) =~= Seq::<Seq<char>>::empty());
        reveal_with_fuel(read_arguments, 2);
    } else if arguments[0] == "--listen"@ {
        law_later_option_counts(arguments.skip(2), arguments[1], ignore, address);
        assert((arguments + served).skip(2) =~= arguments.skip(2) + served);
        assert((arguments + skipped).skip(2) =~= arguments.skip(2) + skipped);
    } else {
        law_later_option_counts(arguments.skip(1), listen, true, address);
        assert((arguments + served).skip(1) =~= arguments.skip(1) + served);
        assert((arguments + skipped).skip(1) =~= arguments.skip(1) + skipped);
    }
}

/// What each argument does: an address follows `--listen`, `--ignore-kernel-version`
/// stands alone, `--help` and `-h` ask for help, and every other is named as unknown.
pub proof fn law_arguments(
    argument: Seq<char>,
    address: Seq<char>,
    rest: Seq<Seq<char>>,
    listen: Seq<char>,
    ignore: bool,
)
    ensures
        read_arguments(Seq::empty(), listen, ignore) == Ok::<InvocationModel, Seq<char>>(
            InvocationModel::Run { listen, ignore_kernel_version: ignore },
        ),
        read_arguments(seq!["--listen"@, address] + rest, listen, ignore) == read_arguments(
            rest,
            address,
            ignore,
        ),
        read_arguments(seq!["--listen"@], listen, ignore) == Err::<InvocationModel, Seq<char>>(
            "--listen requires an address"@,
        ),
        read_arguments(seq!["--ignore-kernel-version"@] + rest, listen, ignore) == read_arguments(
            rest,
            listen,
            true,
        ),
        read_arguments(seq!["--help"@] + rest, listen, ignore) == Ok::<InvocationModel, Seq<char>>(
            InvocationModel::Help,
        ),
        read_arguments(seq!["-h"@] + rest, listen, ignore) == Ok::<InvocationModel, Seq<char>>(
            InvocationModel::Help,
        ),
        argument != "--listen"@ && argument != "--ignore-kernel-version"@ && argument != "--help"@
            && argument != "-h"@ ==> read_arguments(seq![argument] + rest, listen, ignore) == Err::<
            InvocationModel,
            Seq<char>,
        >("Unknown argument: "@ + argument),
{
    reveal_strlit("--listen");
    reveal_strlit("--ignore-kernel-version");
    reveal_strlit("--help");
    reveal_strlit("-h");
    assert("--help"@.len() == 6 && "--listen"@.len() == 8 && "-h"@.len() == 2);
    assert("--ignore-kernel-version"@.len() == 23);
    assert((seq!["--listen"@, address] + rest).skip(2) =~= rest);
    assert((seq!["--ignore-kernel-version"@] + rest).skip(1) =~= rest);
}

/// Only a kernel whose release, without white space around it, is 5.4.55 passes,
/// unless the check is skipped; the release that is found is named.
pub proof fn law_kernel_check(release: Seq<char>, error: Seq<char>)
    ensures
        kernel_complaint(true, Ok(release)) is None,
        kernel_complaint(true, Err(error)) is None,
        kernel_complaint(false, Err(error)) == Some("Reading the kernel release failed: "@ + error),
        text::trimmed(release) == "5.4.55"@ ==> kernel_complaint(false, Ok(release)) is None,
        text::trimmed(release) != "5.4.55"@ ==> kernel_complaint(false, Ok(release)) == Some(
            "Kernel release is "@ + text::trimmed(release)
                + "; expected 5.4.55. Use --ignore-kernel-version to skip this check"@,
        ),
{
}

/// The models of what is asked for and of the arguments tell all of them.
pub proof fn law_models(
    listen: String,
    ignore_kernel_version: bool,
    arguments: Seq<String>,
    i: int,
)
    ensures
        (Invocation::Run { listen, ignore_kernel_version })@ == (InvocationModel::Run {
            listen: listen@,
            ignore_kernel_version,
        }),
        Invocation::Help@ == InvocationModel::Help,
        texts(arguments).len() == arguments.len(),
        0 <= i < arguments.len() ==> texts(arguments)[i] == arguments[i]@,
{
}

} // verus!
