//! Finds the name an ifcfg configuration file gives to a network interface,
//! by the interface's hardware address.

pub mod mac;
pub mod parser;
pub mod scanner;
pub mod text;

use vstd::prelude::*;

use crate::mac::{
    bare_mac_bytes, is_bare_mac_text, is_separated_mac_text, mac_from_str, parse_mac_address, separated_mac_bytes,
    MacAddress, MacParseError,
};

verus! {

/// Position of the configuration directory among the command-line arguments.
pub const ARG_CONFIG_DIR: usize = 1;

/// Position of the hardware address among the command-line arguments.
pub const ARG_MAC: usize = 2;

/// How many command-line arguments put the program in test mode.
pub const ARG_COUNT: usize = 3;

/// Position of the kernel command line's path among the command-line
/// arguments, after the hardware address.
pub const ARG_KERNEL_CMDLINE: usize = 3;

/// The program runs in test mode when it was given at least
/// `number_params_required` command-line parameters.
pub fn is_test_mode(params: &[String], number_params_required: usize) -> (r: bool)
    ensures
        r == (params@.len() >= number_params_required),
{
    params.len() >= number_params_required
}

/// The pattern of the names that the kernel gives to interfaces: `eth`
/// followed by one or more of the digits 0 to 9.
pub open spec fn kernel_name_pattern() -> Seq<char> {
    "^eth[0-9]+$"@
}

/// A name that the kernel could have given: `eth` followed by one or more of
/// the digits 0 to 9, and nothing else.
pub open spec fn is_kernel_like_name(name: Seq<char>) -> bool {
    &&& name.len() > 3
    &&& name[0] == 'e'
    &&& name[1] == 't'
    &&& name[2] == 'h'
    &&& forall|i: int| 3 <= i < name.len() ==> '0' <= #[trigger] name[i] <= '9'
}

/// Calls `regex::Regex::new` on the pattern and then `Regex::is_match` on
/// the haystack. The contract is for the one pattern the library uses,
/// `^eth[0-9]+$`, and claims what the crate's documentation gives for it:
/// `^` and `$` match only at the start and the end of the haystack, `eth`
/// matches itself, `[0-9]` one of the digits 0 to 9 and `+` one or more of
/// them; `is_match` answers whether the haystack has a match. The pattern is
/// valid and small, so `Regex::new` accepts it and the error arm is never
/// taken.
#[verifier::external_body]
fn regex_is_match(pattern: &str, haystack: &str) -> (r: bool)
    requires
        pattern@ == kernel_name_pattern(),
    ensures
        r == is_kernel_like_name(haystack@),
{
    match regex::Regex::new(pattern) {
        Ok(re) => re.is_match(haystack),
        Err(_) => false,
    }
}

/// Whether a new device name looks like one the kernel gives (eth0, eth1,
/// ...): whether it matches `^eth[0-9]+$`.
pub fn is_like_kernel_name(new_devname: &str) -> (r: bool)
    ensures
        r == is_kernel_like_name(new_devname@),
{
    regex_is_match("^eth[0-9]+$", new_devname)
}

/// The configuration directory to search: in test mode the argument given
/// for it, otherwise `/etc/sysconfig/network-scripts`.
pub fn get_config_dir<'a>(is_test_mode: bool, args: &'a [String]) -> (r: &'a str)
    requires
        is_test_mode ==> args@.len() > ARG_CONFIG_DIR,
    ensures
        is_test_mode ==> r@ == args@[ARG_CONFIG_DIR as int]@,
        !is_test_mode ==> r@ == "/etc/sysconfig/network-scripts"@,
{
    if is_test_mode {
        args[ARG_CONFIG_DIR].as_str()
    } else {
        "/etc/sysconfig/network-scripts"
    }
}

/// A name is kernel-like exactly when it is `eth` followed by a nonempty
/// text every character of which is one of the digits 0 to 9.
pub proof fn law_kernel_like_name(name: Seq<char>)
    ensures
        is_kernel_like_name(name) <==> (name.len() > 3 && name.take(3) == seq!['e', 't', 'h'] && forall|i: int|
            3 <= i < name.len() ==> #[trigger] name[i] == '0' || name[i] == '1' || name[i] == '2' || name[i]
                == '3' || name[i] == '4' || name[i] == '5' || name[i] == '6' || name[i] == '7' || name[i] == '8'
                || name[i] == '9'),
{
    if name.len() > 3 && name.take(3) == seq!['e', 't', 'h'] {
        assert(name[0] == name.take(3)[0] && name[1] == name.take(3)[1] && name[2] == name.take(3)[2]);
    }
    if is_kernel_like_name(name) {
        assert(name.take(3) =~= seq!['e', 't', 'h']);
    }
}

/// Adding a character to a name keeps or makes it kernel-like exactly when
/// the character is a digit and the name was `eth` or already kernel-like:
/// one character that is not a digit anywhere after `eth` spoils it.
pub proof fn law_kernel_like_extend(name: Seq<char>, c: char)
    ensures
        is_kernel_like_name(name.push(c)) <==> (('0' <= c && c <= '9') && (is_kernel_like_name(name) || name
            == seq!['e', 't', 'h'])),
{
    let m = name.push(c);
    assert(m[m.len() - 1] == c);
    assert forall|i: int| 0 <= i < name.len() implies #[trigger] m[i] == name[i] by {}
    if is_kernel_like_name(m) {
        assert('0' <= m[m.len() - 1] <= '9');
        if name.len() == 3 {
            assert(name =~= seq!['e', 't', 'h']);
        } else {
            assert forall|i: int| 3 <= i < name.len() implies '0' <= #[trigger] name[i] <= '9' by {
                assert(m[i] == name[i]);
                assert('0' <= m[i] <= '9');
            }
        }
    }
    if ('0' <= c && c <= '9') && (is_kernel_like_name(name) || name == seq!['e', 't', 'h']) {
        assert forall|i: int| 3 <= i < m.len() implies '0' <= #[trigger] m[i] <= '9' by {
            if i < name.len() {
                assert(m[i] == name[i]);
            }
        }
        assert(is_kernel_like_name(m));
    }
}

/// The hardware address to look for: in test mode the one given as the
/// argument at `index`, read from its text; otherwise the address of the
/// interface, which the caller looked up.
pub fn get_mac_address(
    is_test_mode: bool,
    args: &[String],
    index: usize,
    interface_mac: Option<MacAddress>,
) -> (r: Result<MacAddress, MacParseError>)
    requires
        is_test_mode ==> index < args@.len(),
        !is_test_mode ==> interface_mac is Some,
    ensures
        !is_test_mode ==> r == Ok::<MacAddress, MacParseError>(interface_mac->0),
        is_test_mode ==> (r matches Ok(m) ==> mac_from_str(args@[index as int]@) == Some(m@)),
        is_test_mode ==> (r is Err ==> mac_from_str(args@[index as int]@) is None),
        is_test_mode ==> ((r == Err::<MacAddress, MacParseError>(MacParseError::InvalidLength)) <==> (
        !args@[index as int].is_ascii() || (args@[index as int]@.len() != 12
            && args@[index as int]@.len() != 17))),
        is_test_mode && is_separated_mac_text(args@[index as int]@) ==> r is Ok && r->Ok_0@
            == separated_mac_bytes(args@[index as int]@),
        is_test_mode && is_bare_mac_text(args@[index as int]@) ==> r is Ok && r->Ok_0@ == bare_mac_bytes(
            args@[index as int]@,
        ),
{
    if is_test_mode {
        parse_mac_address(args[index].as_str())
    } else {
        match interface_mac {
            Some(mac) => Ok(mac),
            None => Err(MacParseError::InvalidLength),
        }
    }
}

/// The path of the kernel command line: in test mode the argument after the
/// hardware address, otherwise `/proc/cmdline`.
pub fn get_kernel_cmdline<'a>(is_test_mode: bool, args: &'a [String]) -> (r: &'a str)
    requires
        is_test_mode ==> args@.len() > ARG_KERNEL_CMDLINE,
    ensures
        is_test_mode ==> r@ == args@[ARG_KERNEL_CMDLINE as int]@,
        !is_test_mode ==> r@ == "/proc/cmdline"@,
{
    if is_test_mode {
        args[ARG_KERNEL_CMDLINE].as_str()
    } else {
        "/proc/cmdline"
    }
}

} // verus!
