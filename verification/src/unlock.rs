//! What the kernel module that clears the write protection is loaded with.
use vstd::prelude::*;

use crate::number;
use crate::number::{parse_unsigned, push_hexadecimal};
use crate::text;
use crate::text::{same_chars, split_field, split_line, to_chars};

verus! {

/// The address field of the first line of `/proc/kallsyms` whose third field is
/// the name that is wanted.
pub open spec fn address_field(lines: Seq<Seq<char>>, wanted: Seq<char>) -> Option<Seq<char>>
    decreases lines.len(),
{
    if lines.len() == 0 {
        None
    } else {
        let fields = text::fields(lines[0]);
        if fields.len() >= 3 && fields[2] == wanted {
            Some(fields[0])
        } else {
            address_field(lines.drop_first(), wanted)
        }
    }
}

/// The address of a symbol, or why it is not known.
pub open spec fn symbol_value(symbols: Seq<char>, wanted: Seq<char>) -> Result<nat, Seq<char>> {
    match address_field(text::lines(symbols), wanted) {
        None => Err(wanted + " is absent from /proc/kallsyms"@),
        Some(address) => match number::number_value(address, 16, u64::MAX as nat) {
            None => Err("Invalid address for "@ + wanted),
            Some(value) => if value == 0 {
                Err("Address of "@ + wanted + " is hidden by the kernel"@)
            } else {
                Ok(value)
            },
        },
    }
}

/// The first and the third field of a line, where it has as many.
fn split_symbol(line: &[char]) -> (parts: Option<(&[char], &[char])>)
    ensures
        match parts {
            Some((address, name)) => {
                &&& text::fields(line@).len() >= 3
                &&& text::fields(line@)[0] == address@
                &&& text::fields(line@)[2] == name@
            },
            None => text::fields(line@).len() < 3,
        },
{
    let ghost all = text::fields(line@);
    let (address, rest) = match split_field(line) {
        Some(parts) => parts,
        None => {
            return None;
        },
    };
    let (kind, rest_after_kind) = match split_field(rest) {
        Some(parts) => parts,
        None => {
            assert(all.len() == 1);
            return None;
        },
    };
    assert(all.len() >= 2 && all[1] == kind@);
    match split_field(rest_after_kind) {
        Some((name, _)) => {
            assert(all.len() >= 3 && all[2] == name@);
            Some((address, name))
        },
        None => {
            assert(all.len() == 2);
            None
        },
    }
}

/// Finds the address of a symbol in what `/proc/kallsyms` holds.
pub fn symbol_address(symbols: &str, wanted: &str) -> (result: Result<u64, String>)
    ensures
        match result {
            Ok(address) => symbol_value(symbols@, wanted@) == Ok::<nat, Seq<char>>(address as nat),
            Err(message) => symbol_value(symbols@, wanted@) == Err::<nat, Seq<char>>(message@),
        },
{
    let chars = to_chars(symbols);
    let name = to_chars(wanted);
    let mut left: &[char] = &chars;
    while left.len() > 0
        invariant
            name@ == wanted@,
            address_field(text::lines(left@), wanted@) == address_field(
                text::lines(symbols@),
                wanted@,
            ),
        decreases left@.len(),
    {
        let ghost all = text::lines(left@);
        let (line, rest) = split_line(left);
        assert(all.drop_first() =~= text::lines(rest@));
        if let Some((address, third)) = split_symbol(line) {
            if same_chars(third, &name) {
                return match parse_unsigned(address, 16, u64::MAX) {
                    None => {
                        let mut message = "Invalid address for ".to_string();
                        message.append(wanted);
                        Err(message)
                    },
                    Some(value) => if value == 0 {
                        let mut message = "Address of ".to_string();
                        message.append(wanted);
                        message.append(" is hidden by the kernel");
                        Err(message)
                    } else {
                        Ok(value)
                    },
                };
            }
        }
        left = rest;
    }
    let mut message = wanted.to_string();
    message.append(" is absent from /proc/kallsyms");
    Err(message)
}

/// The text that hands the module the addresses of the two MTD functions.
pub open spec fn parameter_text(get: nat, put: nat) -> Seq<char> {
    "get_mtd_device_addr=0x"@ + number::hexadecimal(get) + " put_mtd_device_addr=0x"@
        + number::hexadecimal(put)
}

/// The module's parameters, from what `/proc/kallsyms` holds or why it could not
/// be read; or why there are none.
pub open spec fn parameters(symbols: Result<Seq<char>, Seq<char>>) -> Result<Seq<char>, Seq<char>> {
    match symbols {
        Err(error) => Err("Reading /proc/kallsyms failed: "@ + error),
        Ok(content) => match symbol_value(content, "get_mtd_device"@) {
            Err(message) => Err(message),
            Ok(get) => match symbol_value(content, "put_mtd_device"@) {
                Err(message) => Err(message),
                Ok(put) => Ok(parameter_text(get, put)),
            },
        },
    }
}

/// The module receives the MTD function addresses from the running kernel.
pub fn module_parameters(symbols: Result<&str, &str>) -> (result: Result<String, String>)
    ensures
        ({
            let content = match symbols {
                Ok(content) => Ok(content@),
                Err(error) => Err(error@),
            };
            match result {
                Ok(text) => parameters(content) == Ok::<Seq<char>, Seq<char>>(text@),
                Err(message) => parameters(content) == Err::<Seq<char>, Seq<char>>(message@),
            }
        }),
{
    let content = match symbols {
        Ok(content) => content,
        Err(error) => {
            let mut message = "Reading /proc/kallsyms failed: ".to_string();
            message.append(error);
            return Err(message);
        },
    };
    let get = match symbol_address(content, "get_mtd_device") {
        Ok(address) => address,
        Err(message) => {
            return Err(message);
        },
    };
    let put = match symbol_address(content, "put_mtd_device") {
        Ok(address) => address,
        Err(message) => {
            return Err(message);
        },
    };
    let mut parameters = "get_mtd_device_addr=0x".to_string();
    push_hexadecimal(&mut parameters, get);
    parameters.append(" put_mtd_device_addr=0x");
    push_hexadecimal(&mut parameters, put);
    Ok(parameters)
}

/// What loading the module came to, from what the kernel returned: a module that
/// is loaded already is as good.
pub fn load_result(result: i64, code: Option<i32>, already_loaded: i32, error: &str) -> (outcome:
    Result<(), String>)
    ensures
        match outcome {
            Ok(()) => result == 0 || code == Some(already_loaded),
            Err(message) => {
                &&& result != 0
                &&& code != Some(already_loaded)
                &&& message@ == "init_module failed: "@ + error@
            },
        },
{
    if result == 0 {
        return Ok(());
    }
    if let Some(value) = code {
        if value == already_loaded {
            return Ok(());
        }
    }
    let mut message = "init_module failed: ".to_string();
    message.append(error);
    Err(message)
}

/// The parameters hold no NUL, so they are a text that the kernel takes whole.
pub proof fn law_parameters_without_nul(symbols: Result<Seq<char>, Seq<char>>, i: int)
    requires
        parameters(symbols) is Ok,
        0 <= i < parameters(symbols)->Ok_0.len(),
    ensures
        parameters(symbols)->Ok_0[i] != '\0',
{
    let content = symbols->Ok_0;
    let get = symbol_value(content, "get_mtd_device"@)->Ok_0;
    let put = symbol_value(content, "put_mtd_device"@)->Ok_0;
    reveal_strlit("get_mtd_device_addr=0x");
    reveal_strlit(" put_mtd_device_addr=0x");
    number::lemma_digits_chars(get, 16);
    number::lemma_digits_chars(put, 16);
}

/// The first line whose third field is that name, if there is one, gives the address
/// field.
proof fn lemma_first_line(lines: Seq<Seq<char>>, wanted: Seq<char>) -> (found: Option<int>)
    ensures
        match found {
            Some(i) => {
                &&& 0 <= i < lines.len()
                &&& text::fields(lines[i]).len() >= 3
                &&& text::fields(lines[i])[2] == wanted
                &&& forall|j: int|
                    0 <= j < i ==> text::fields(#[trigger] lines[j]).len() < 3 || text::fields(
                        lines[j],
                    )[2] != wanted
                &&& address_field(lines, wanted) == Some(text::fields(lines[i])[0])
            },
            None => {
                &&& address_field(lines, wanted) is None
                &&& forall|j: int|
                    0 <= j < lines.len() ==> text::fields(#[trigger] lines[j]).len() < 3
                        || text::fields(lines[j])[2] != wanted
            },
        },
    decreases lines.len(),
{
    if lines.len() == 0 {
        None
    } else if text::fields(lines[0]).len() >= 3 && text::fields(lines[0])[2] == wanted {
        Some(0)
    } else {
        let rest = lines.drop_first();
        let found = lemma_first_line(rest, wanted);
        assert forall|j: int| 1 <= j < lines.len() implies #[trigger] lines[j] == rest[j - 1] by {}
        match found {
            Some(i) => Some(i + 1),
            None => None,
        }
    }
}

/// The first line whose third field is the wanted name in full decides: its first
/// field, read in hexadecimal, is the address, unless it is no number or zero.
pub proof fn law_first_line_decides(symbols: Seq<char>, wanted: Seq<char>, i: int)
    requires
        0 <= i < text::lines(symbols).len(),
        text::fields(text::lines(symbols)[i]).len() >= 3,
        text::fields(text::lines(symbols)[i])[2] == wanted,
        forall|j: int|
            0 <= j < i ==> text::fields(#[trigger] text::lines(symbols)[j]).len() < 3
                || text::fields(text::lines(symbols)[j])[2] != wanted,
    ensures
        symbol_value(symbols, wanted) == (match number::number_value(
            text::fields(text::lines(symbols)[i])[0],
            16,
            0xffff_ffff_ffff_ffff,
        ) {
            None => Err("Invalid address for "@ + wanted),
            Some(address) => if address == 0 {
                Err("Address of "@ + wanted + " is hidden by the kernel"@)
            } else {
                Ok(address)
            },
        }),
{
    let lines = text::lines(symbols);
    let found = lemma_first_line(lines, wanted);
    assert(text::fields(lines[i]).len() >= 3);
    if let Some(f) = found {
        assert(text::fields(lines[f]).len() >= 3);
    }
}

/// An address comes from a line whose third field is the wanted name in full, before
/// which no line names it, and is what the first field of that line reads as; where
/// no line names it, the name is said to be absent.
pub proof fn law_symbol_address(symbols: Seq<char>, wanted: Seq<char>)
    ensures
        symbol_value(symbols, wanted) matches Ok(address) ==> exists|i: int|
            {
                &&& 0 <= i < text::lines(symbols).len()
                &&& text::fields(#[trigger] text::lines(symbols)[i]).len() >= 3
                &&& text::fields(text::lines(symbols)[i])[2] == wanted
                &&& number::number_value(
                    text::fields(text::lines(symbols)[i])[0],
                    16,
                    0xffff_ffff_ffff_ffff,
                ) == Some(address)
                &&& address > 0
                &&& forall|j: int|
                    0 <= j < i ==> text::fields(#[trigger] text::lines(symbols)[j]).len() < 3
                        || text::fields(text::lines(symbols)[j])[2] != wanted
            },
        (forall|j: int|
            0 <= j < text::lines(symbols).len() ==> text::fields(
                #[trigger] text::lines(symbols)[j],
            ).len() < 3 || text::fields(text::lines(symbols)[j])[2] != wanted) ==> symbol_value(
            symbols,
            wanted,
        ) == Err::<nat, Seq<char>>(wanted + " is absent from /proc/kallsyms"@),
{
    let lines = text::lines(symbols);
    let found = lemma_first_line(lines, wanted);
    if let Some(f) = found {
        assert(text::fields(lines[f]).len() >= 3);
    }
}

/// The module gets the address of `get_mtd_device` and that of `put_mtd_device`,
/// each under its own name, in hexadecimal; where one is not known, the first that
/// is not decides what is said.
pub proof fn law_module_parameters(content: Seq<char>, error: Seq<char>)
    ensures
        parameters(Err(error)) == Err::<Seq<char>, Seq<char>>(
            "Reading /proc/kallsyms failed: "@ + error,
        ),
        parameters(Ok(content)) == (match (
            symbol_value(content, "get_mtd_device"@),
            symbol_value(content, "put_mtd_device"@),
        ) {
            (Err(message), _) => Err(message),
            (Ok(get), Err(message)) => Err(message),
            (Ok(get), Ok(put)) => Ok(
                "get_mtd_device_addr=0x"@ + number::digits(get, 16) + " put_mtd_device_addr=0x"@
                    + number::digits(put, 16),
            ),
        }),
{
}

} // verus!
