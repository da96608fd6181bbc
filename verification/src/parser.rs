//! ifcfg configuration files: the lines that name a device and give its
//! hardware address, and the search for the device of a given address.

use vstd::prelude::*;

use crate::mac::{
    ascii_lowercase, is_colon_mac_text, is_hex_digit, lemma_colon_text_formats_back, lemma_mac_text_parses_back,
    mac_text, mac_to_lower_string, lemma_mac_text_colon_forms, parse_mac_address, separated_mac_bytes, MacAddress,
};
use crate::text::{
    chars_of, is_white_space, lemma_pieces_append, lemma_pieces_push_newline, lemma_pieces_without_newline,
    lines_of, newline_pieces, split_lines, str_equal, strip_cr, white_space,
};

verus! {

/// Why a configuration file names no device for the address sought.
#[derive(Clone, Copy, Debug, PartialEq, Eq)]
pub enum ConfigError {
    /// The file gives no hardware address, or not the one sought.
    DeviceNameNotFound,
}

impl ConfigError {
    /// The error's message.
    pub fn message(&self) -> (r: &'static str)
        ensures
            r@ == "new device name not found"@,
    {
        "new device name not found"
    }
}

/// A line without the white space it starts with.
pub open spec fn trim_leading_white_space(l: Seq<char>) -> Seq<char>
    decreases l.len(),
{
    if l.len() > 0 && is_white_space(l[0]) {
        trim_leading_white_space(l.drop_first())
    } else {
        l
    }
}

/// The key of the line that gives the hardware address.
pub open spec fn hwaddr_key() -> Seq<char> {
    seq!['H', 'W', 'A', 'D', 'D', 'R', '=']
}

/// The key of the line that gives the device name.
pub open spec fn device_key() -> Seq<char> {
    seq!['D', 'E', 'V', 'I', 'C', 'E', '=']
}

/// The hardware address that a line gives: after any white space, `HWADDR=`
/// and six hexadecimal pairs separated by colons; anything may follow.
pub open spec fn hwaddr_value(line: Seq<char>) -> Option<Seq<char>> {
    let r = trim_leading_white_space(line);
    if r.len() >= 24 && r.take(7) == hwaddr_key() && is_colon_mac_text(r.subrange(7, 24)) {
        Some(r.subrange(7, 24))
    } else {
        None
    }
}

/// A character that a device name can hold: neither white space nor a colon.
pub open spec fn is_name_char(c: char) -> bool {
    !is_white_space(c) && c != ':'
}

/// How many name characters `s` starts with.
pub open spec fn name_run_len(s: Seq<char>) -> nat
    decreases s.len(),
{
    if s.len() == 0 || !is_name_char(s[0]) {
        0
    } else {
        1 + name_run_len(s.drop_first())
    }
}

/// The device name that a line gives: after any white space, `DEVICE=`, then
/// the longest run of at most fifteen characters that are neither white
/// space nor a colon; nothing where that run is empty.
pub open spec fn device_value(line: Seq<char>) -> Option<Seq<char>> {
    let r = trim_leading_white_space(line);
    if r.len() >= 7 && r.take(7) == device_key() {
        let run: nat = name_run_len(r.skip(7));
        let k: nat = if run < 15 {
            run
        } else {
            15
        };
        if k == 0 {
            None
        } else {
            Some(r.subrange(7, 7 + k as int))
        }
    } else {
        None
    }
}

/// The hardware address of the last line that gives one.
pub open spec fn last_hwaddr(lines: Seq<Seq<char>>) -> Option<Seq<char>>
    decreases lines.len(),
{
    if lines.len() == 0 {
        None
    } else {
        match hwaddr_value(lines.last()) {
            Some(v) => Some(v),
            None => last_hwaddr(lines.drop_last()),
        }
    }
}

/// The device name of the last line that gives one.
pub open spec fn last_device(lines: Seq<Seq<char>>) -> Option<Seq<char>>
    decreases lines.len(),
{
    if lines.len() == 0 {
        None
    } else {
        match device_value(lines.last()) {
            Some(v) => Some(v),
            None => last_device(lines.drop_last()),
        }
    }
}

/// A configuration file names a device for an address when its last
/// hardware address, in lower case, is that address's text.
pub open spec fn config_matches(content: Seq<char>, mac_address: Seq<char>) -> bool {
    match last_hwaddr(lines_of(content)) {
        Some(hw) => ascii_lowercase(hw) == mac_address,
        None => false,
    }
}

/// Where the white space at the start of `chars` ends.
fn skip_white_space(chars: &Vec<char>) -> (k: usize)
    ensures
        k <= chars@.len(),
        trim_leading_white_space(chars@) == chars@.skip(k as int),
{
    let mut k: usize = 0;
    proof {
        assert(chars@.skip(0) =~= chars@);
    }
    while k < chars.len() && white_space(chars[k])
        invariant
            k <= chars@.len(),
            trim_leading_white_space(chars@) == trim_leading_white_space(chars@.skip(k as int)),
        decreases chars.len() - k,
    {
        proof {
            assert(chars@.skip(k as int).drop_first() =~= chars@.skip(k + 1));
        }
        k = k + 1;
    }
    k
}

/// Whether `chars` holds `key` at `at`.
fn has_key_at(chars: &Vec<char>, at: usize, key: &[char; 7]) -> (r: bool)
    requires
        at <= chars@.len(),
    ensures
        r == (chars@.len() >= at + 7 && chars@.subrange(at as int, at + 7) == key@),
{
    if chars.len() - at < 7 {
        return false;
    }
    let mut i: usize = 0;
    while i < 7
        invariant
            chars.len() >= at + 7,
            i <= 7,
            forall|j: int| 0 <= j < i ==> chars@[at + j] == key@[j],
        decreases 7 - i,
    {
        if chars[at + i] != key[i] {
            proof {
                assert(chars@.subrange(at as int, at + 7)[i as int] != key@[i as int]);
            }
            return false;
        }
        i = i + 1;
    }
    proof {
        assert(chars@.subrange(at as int, at + 7) =~= key@);
    }
    true
}

fn hex_digit(c: char) -> (r: bool)
    ensures
        r == is_hex_digit(c),
{
    ('0' <= c && c <= '9') || ('A' <= c && c <= 'F') || ('a' <= c && c <= 'f')
}

/// Whether the 17 characters of `chars` at `at` are six hexadecimal pairs
/// separated by colons.
fn colon_mac_text_at(chars: &Vec<char>, at: usize) -> (r: bool)
    requires
        at + 17 <= chars@.len(),
    ensures
        r == is_colon_mac_text(chars@.subrange(at as int, at + 17)),
{
    let ghost t = chars@.subrange(at as int, at + 17);
    let mut i: usize = 0;
    while i < 17
        invariant
            at + 17 <= chars.len(),
            t == chars@.subrange(at as int, at + 17),
            i <= 17,
            forall|j: int| 0 <= j < i ==> if j % 3 == 2 { t[j] == ':' } else { is_hex_digit(#[trigger] t[j]) },
        decreases 17 - i,
    {
        let c = chars[at + i];
        let ok = if i % 3 == 2 {
            c == ':'
        } else {
            hex_digit(c)
        };
        if !ok {
            proof {
                assert(t[i as int] == c);
            }
            return false;
        }
        i = i + 1;
    }
    proof {
        assert forall|j: int| 0 <= j < 17 && j % 3 == 2 implies #[trigger] t[j] == ':' by {
            assert(if j % 3 == 2 { t[j] == ':' } else { is_hex_digit(t[j]) });
        }
        assert forall|j: int|
            0 <= j < 17 implies if j % 3 == 2 { t[j] == ':' || t[j] == '-' } else { is_hex_digit(
            #[trigger] t[j]) } by {
            assert(if j % 3 == 2 { t[j] == ':' } else { is_hex_digit(t[j]) });
        }
    }
    true
}

/// The hardware address text that a line gives, if it gives one.
pub fn hwaddr_of_line(line: &str) -> (r: Option<String>)
    ensures
        r matches Some(v) ==> hwaddr_value(line@) == Some(v@),
        r is None ==> hwaddr_value(line@) is None,
{
    let chars = chars_of(line);
    let start: usize = skip_white_space(&chars);
    let ghost rest = chars@.skip(start as int);
    let key = ['H', 'W', 'A', 'D', 'D', 'R', '='];
    proof {
        assert(key@ =~= hwaddr_key());
    }
    if !has_key_at(&chars, start, &key) {
        proof {
            if rest.len() >= 7 {
                assert(rest.take(7) =~= chars@.subrange(start as int, start + 7));
            }
        }
        return None;
    }
    proof {
        assert(rest.take(7) =~= chars@.subrange(start as int, start + 7));
    }
    if chars.len() - start < 24 {
        return None;
    }
    let ok = colon_mac_text_at(&chars, start + 7);
    proof {
        assert(rest.subrange(7, 24) =~= chars@.subrange(start + 7, start + 24));
    }
    if !ok {
        return None;
    }
    let value = line.substring_char(start + 7, start + 24);
    Some(value.to_owned())
}

/// How many name characters, up to `max`, `chars` holds from `at` on.
fn name_run(chars: &Vec<char>, at: usize, max: usize) -> (k: usize)
    requires
        at <= chars@.len(),
    ensures
        k == (if name_run_len(chars@.skip(at as int)) < max {
            name_run_len(chars@.skip(at as int))
        } else {
            max as nat
        }),
        at + k <= chars@.len(),
{
    proof {
        lemma_name_run(chars@.skip(at as int));
    }
    let mut k: usize = 0;
    while k < max && at + k < chars.len() && !white_space(chars[at + k]) && chars[at + k] != ':'
        invariant
            at <= chars@.len(),
            k <= max,
            at + k <= chars.len(),
            name_run_len(chars@.skip(at as int)) == k + name_run_len(chars@.skip(at + k)),
        decreases max - k,
    {
        proof {
            assert(chars@.skip(at + k).drop_first() =~= chars@.skip(at + k + 1));
        }
        k = k + 1;
    }
    k
}

/// The device name that a line gives, if it gives one.
pub fn device_of_line(line: &str) -> (r: Option<String>)
    ensures
        r matches Some(v) ==> device_value(line@) == Some(v@),
        r is None ==> device_value(line@) is None,
{
    let chars = chars_of(line);
    let start: usize = skip_white_space(&chars);
    let ghost rest = chars@.skip(start as int);
    let key = ['D', 'E', 'V', 'I', 'C', 'E', '='];
    proof {
        assert(key@ =~= device_key());
    }
    if !has_key_at(&chars, start, &key) {
        proof {
            if rest.len() >= 7 {
                assert(rest.take(7) =~= chars@.subrange(start as int, start + 7));
            }
        }
        return None;
    }
    proof {
        assert(rest.take(7) =~= chars@.subrange(start as int, start + 7));
    }
    if chars.len() - start < 7 {
        return None;
    }
    let k: usize = name_run(&chars, start + 7, 15);
    proof {
        assert(rest.skip(7) =~= chars@.skip(start + 7));
        assert(rest.subrange(7, 7 + k) =~= chars@.subrange(start + 7, start + 7 + k));
    }
    if k == 0 {
        return None;
    }
    let value = line.substring_char(start + 7, start + 7 + k);
    Some(value.to_owned())
}


/// The shape of a device name that a line can give: one to fifteen
/// characters, none of them white space or a colon.
pub open spec fn is_device_name_shape(d: Seq<char>) -> bool {
    &&& 1 <= d.len() <= 15
    &&& forall|i: int| 0 <= i < d.len() ==> is_name_char(#[trigger] d[i])
}

/// A run of name characters is no longer than the text, and all of it is
/// name characters.
proof fn lemma_name_run(s: Seq<char>)
    ensures
        name_run_len(s) <= s.len(),
        forall|i: int| 0 <= i < name_run_len(s) ==> is_name_char(#[trigger] s[i]),
    decreases s.len(),
{
    if s.len() > 0 && is_name_char(s[0]) {
        lemma_name_run(s.drop_first());
        assert forall|i: int| 0 <= i < name_run_len(s) implies is_name_char(#[trigger] s[i]) by {
            if i > 0 {
                assert(s[i] == s.drop_first()[i - 1]);
            }
        }
    }
}

/// Every device name that a line gives has the shape of an interface name of
/// at most fifteen characters.
pub proof fn lemma_device_value_shape(line: Seq<char>)
    ensures
        device_value(line) matches Some(d) ==> is_device_name_shape(d),
{
    let r = trim_leading_white_space(line);
    if r.len() >= 7 && r.take(7) == device_key() {
        lemma_name_run(r.skip(7));
        if device_value(line) is Some {
            let d = device_value(line)->0;
            assert forall|i: int| 0 <= i < d.len() implies is_name_char(#[trigger] d[i]) by {
                assert(d[i] == r.skip(7)[i]);
            }
        }
    }
}

/// The device name that the last naming line of a file gives has that shape.
pub proof fn lemma_last_device_shape(lines: Seq<Seq<char>>)
    ensures
        last_device(lines) matches Some(d) ==> is_device_name_shape(d),
    decreases lines.len(),
{
    if lines.len() > 0 {
        lemma_device_value_shape(lines.last());
        lemma_last_device_shape(lines.drop_last());
    }
}

/// The device name that a configuration file gives for the address whose
/// lower-case text is `mac_address`: `Ok` when the file's last hardware
/// address is that address, with the name of its last `DEVICE=` line if it
/// has one; the error otherwise.
pub fn config_file(content: &str, mac_address: &str) -> (r: Result<Option<String>, ConfigError>)
    ensures
        r is Ok <==> config_matches(content@, mac_address@),
        r matches Ok(Some(d)) ==> last_device(lines_of(content@)) == Some(d@),
        r matches Ok(None) ==> last_device(lines_of(content@)) is None,
        r matches Ok(Some(d)) ==> is_device_name_shape(d@),
{
    let lines = split_lines(content);
    let ghost ls = lines_of(content@);
    let mut hwaddr: Option<MacAddress> = None;
    let ghost mut hw_text: Option<Seq<char>> = None;
    let mut device: Option<String> = None;
    let mut i: usize = 0;
    proof {
        assert(ls.take(0) =~= Seq::<Seq<char>>::empty());
    }
    while i < lines.len()
        invariant
            lines@.map_values(|l: String| l@) == ls,
            i <= lines@.len(),
            hw_text == last_hwaddr(ls.take(i as int)),
            hwaddr is Some <==> hw_text is Some,
            hwaddr matches Some(m) ==> is_colon_mac_text(hw_text->0) && m@ == separated_mac_bytes(
                hw_text->0,
            ),
            device matches Some(d) ==> last_device(ls.take(i as int)) == Some(d@),
            device is None ==> last_device(ls.take(i as int)) is None,
        decreases lines.len() - i,
    {
        let line = lines[i].as_str();
        proof {
            assert(ls[i as int] == line@);
            assert(ls.take(i + 1).drop_last() =~= ls.take(i as int));
            assert(ls.take(i + 1).last() == ls[i as int]);
        }
        match hwaddr_of_line(line) {
            Some(text) => {
                match parse_mac_address(text.as_str()) {
                    Ok(mac) => {
                        hwaddr = Some(mac);
                        proof {
                            hw_text = Some(text@);
                        }
                    },
                    Err(_) => {
                        // Never taken: a colon-separated text always parses.
                        return Err(ConfigError::DeviceNameNotFound);
                    },
                }
            },
            None => {},
        }
        match device_of_line(line) {
            Some(d) => {
                device = Some(d);
            },
            None => {},
        }
        i = i + 1;
    }
    proof {
        assert(ls.take(lines@.len() as int) =~= ls);
        lemma_last_device_shape(ls);
    }
    match hwaddr {
        Some(mac) => {
            let text = mac_to_lower_string(&mac);
            proof {
                lemma_colon_text_formats_back(hw_text->0);
            }
            if str_equal(text.as_str(), mac_address) {
                Ok(device)
            } else {
                Err(ConfigError::DeviceNameNotFound)
            }
        },
        None => Err(ConfigError::DeviceNameNotFound),
    }
}

/// The device name that a configuration file gives for an address, if any.
pub open spec fn found_device_name(content: Seq<char>, mac_address: Seq<char>) -> Option<Seq<char>> {
    if config_matches(content, mac_address) {
        last_device(lines_of(content))
    } else {
        None
    }
}

/// The texts of configuration files, `None` for a file that could not be read.
pub open spec fn config_texts(configs: Seq<Option<String>>) -> Seq<Option<Seq<char>>> {
    configs.map_values(
        |c: Option<String>|
            match c {
                Some(s) => Some(s@),
                None => None,
            },
    )
}

/// The device name of the first file, in order, that names one for the address.
pub open spec fn first_device_name(configs: Seq<Option<Seq<char>>>, mac_address: Seq<char>) -> Option<
    Seq<char>,
>
    decreases configs.len(),
{
    if configs.len() == 0 {
        None
    } else {
        let here = match configs[0] {
            Some(c) => found_device_name(c, mac_address),
            None => None,
        };
        if here is Some {
            here
        } else {
            first_device_name(configs.drop_first(), mac_address)
        }
    }
}

/// Goes through the configuration files in order and takes the device name
/// of the first that names one for the address whose lower-case text is
/// `mac_address`; files that could not be read (`None`) are passed over.
pub fn select_device_name(configs: &Vec<Option<String>>, mac_address: &str) -> (r: Option<String>)
    ensures
        r matches Some(n) ==> first_device_name(config_texts(configs@), mac_address@) == Some(n@),
        r is None ==> first_device_name(config_texts(configs@), mac_address@) is None,
{
    let ghost all = config_texts(configs@);
    let mut i: usize = 0;
    proof {
        assert(all.skip(0) =~= all);
    }
    while i < configs.len()
        invariant
            all == config_texts(configs@),
            i <= configs@.len(),
            first_device_name(all, mac_address@) == first_device_name(all.skip(i as int), mac_address@),
        decreases configs.len() - i,
    {
        proof {
            assert(all.skip(i as int).drop_first() =~= all.skip(i + 1));
            assert(all.skip(i as int)[0] == all[i as int]);
        }
        match &configs[i] {
            Some(content) => {
                match config_file(content.as_str(), mac_address) {
                    Ok(Some(name)) => {
                        return Some(name);
                    },
                    _ => {},
                }
            },
            None => {},
        }
        i = i + 1;
    }
    None
}


/// A text of name characters is one run.
proof fn lemma_name_run_len_all(s: Seq<char>)
    requires
        forall|i: int| 0 <= i < s.len() ==> is_name_char(#[trigger] s[i]),
    ensures
        name_run_len(s) == s.len(),
    decreases s.len(),
{
    if s.len() > 0 {
        assert(is_name_char(s[0]));
        assert forall|i: int| 0 <= i < s.drop_first().len() implies is_name_char(#[trigger] s.drop_first()[i]) by {
            assert(s.drop_first()[i] == s[i + 1]);
        }
        lemma_name_run_len_all(s.drop_first());
    }
}

/// The line `HWADDR=` followed by the text of an address.
pub open spec fn hwaddr_line(mac: Seq<u8>) -> Seq<char> {
    hwaddr_key() + mac_text(mac)
}

/// The line `DEVICE=` followed by a name.
pub open spec fn device_line(name: Seq<char>) -> Seq<char> {
    device_key() + name
}

/// A file that gives an address on one line and a device name on the next
/// names that device for the address written in lower case, and for no other
/// text: what a file says of a device is what the search reads back.
pub proof fn law_config_names_its_device(mac: Seq<u8>, name: Seq<char>, sought: Seq<char>)
    requires
        mac.len() == 6,
        is_device_name_shape(name),
    ensures
        ({
            let content = hwaddr_line(mac).push('\n') + device_line(name).push('\n');
            &&& config_matches(content, sought) <==> sought == ascii_lowercase(mac_text(mac))
            &&& last_device(lines_of(content)) == Some(name)
        }),
{
    let a = hwaddr_line(mac);
    let b = device_line(name);
    let content = a.push('\n') + b.push('\n');
    lemma_mac_text_parses_back(mac);
    // The address line holds no newline, nor does the device line.
    assert forall|i: int| 0 <= i < a.len() implies #[trigger] a[i] != '\n' by {
        if i >= 7 {
            assert(a[i] == mac_text(mac)[i - 7]);
            if (i - 7) % 3 != 2 {
                assert(is_hex_digit(mac_text(mac)[i - 7]));
            }
        }
    }
    assert forall|i: int| 0 <= i < b.len() implies #[trigger] b[i] != '\n' by {
        if i >= 7 {
            assert(b[i] == name[i - 7]);
            assert(is_name_char(name[i - 7]));
        }
    }
    lemma_pieces_without_newline(a);
    lemma_pieces_push_newline(a);
    lemma_pieces_append(a.push('\n'), b);
    assert(a.push('\n') + b.push('\n') =~= (a.push('\n') + b).push('\n'));
    lemma_pieces_push_newline(a.push('\n') + b);
    let p = newline_pieces(content);
    assert(p =~= seq![a, b, Seq::<char>::empty()]);
    // Neither line ends with a carriage return.
    assert(a.last() == mac_text(mac)[16]);
    assert(is_hex_digit(mac_text(mac)[16]));
    assert(strip_cr(a) == a);
    assert(b.last() == name.last());
    assert(is_name_char(name[name.len() - 1]));
    assert(strip_cr(b) == b);
    let ls = lines_of(content);
    assert(ls =~= seq![a, b]);
    // The address line gives the address's text.
    assert(trim_leading_white_space(a) == a);
    assert(a.take(7) =~= hwaddr_key());
    assert(a.subrange(7, 24) =~= mac_text(mac));
    assert forall|i: int| 0 <= i < 17 && i % 3 == 2 implies #[trigger] mac_text(mac)[i] == ':' by {}
    assert(hwaddr_value(a) == Some(mac_text(mac)));
    // The device line gives the name and no address.
    assert(trim_leading_white_space(b) == b);
    assert(b.take(7) =~= device_key());
    assert(b.skip(7) =~= name);
    lemma_name_run_len_all(name);
    assert(b.subrange(7, 7 + name.len() as int) =~= name);
    assert(device_value(b) == Some(name));
    if b.len() >= 24 {
        assert(b.take(7)[0] != hwaddr_key()[0]);
    }
    assert(hwaddr_value(b) is None);
    assert(ls.drop_last() =~= seq![a]);
    assert(seq![a].drop_last() =~= Seq::<Seq<char>>::empty());
    assert(ls.last() == b);
    assert(seq![a].last() == a);
    assert(last_hwaddr(seq![a]) == Some(mac_text(mac)));
    assert(last_hwaddr(ls) == Some(mac_text(mac)));
    assert(last_device(ls) == Some(name));
}


/// The characters that can stand in a device name are exactly those that
/// are neither white space nor a colon.
pub proof fn law_name_char(c: char)
    ensures
        is_name_char(c) <==> (!is_white_space(c) && c != ':'),
{
}

/// White space at the start of a line is passed over.
proof fn lemma_trim_white_space_prefix(w: Seq<char>, x: Seq<char>)
    requires
        forall|i: int| 0 <= i < w.len() ==> is_white_space(#[trigger] w[i]),
    ensures
        trim_leading_white_space(w + x) == trim_leading_white_space(x),
    decreases w.len(),
{
    if w.len() > 0 {
        assert((w + x)[0] == w[0]);
        assert((w + x).drop_first() =~= w.drop_first() + x);
        assert forall|i: int| 0 <= i < w.drop_first().len() implies is_white_space(
            #[trigger] w.drop_first()[i],
        ) by {
            assert(w.drop_first()[i] == w[i + 1]);
        }
        lemma_trim_white_space_prefix(w.drop_first(), x);
    } else {
        assert(w + x =~= x);
    }
}

/// A run of name characters goes on into what follows.
proof fn lemma_name_run_concat(n: Seq<char>, rest: Seq<char>)
    requires
        forall|i: int| 0 <= i < n.len() ==> !is_white_space(#[trigger] n[i]) && n[i] != ':',
    ensures
        name_run_len(n + rest) == n.len() + name_run_len(rest),
    decreases n.len(),
{
    if n.len() > 0 {
        assert((n + rest)[0] == n[0]);
        assert((n + rest).drop_first() =~= n.drop_first() + rest);
        assert forall|i: int| 0 <= i < n.drop_first().len() implies !is_white_space(
            #[trigger] n.drop_first()[i],
        ) && n.drop_first()[i] != ':' by {
            assert(n.drop_first()[i] == n[i + 1]);
        }
        lemma_name_run_concat(n.drop_first(), rest);
    } else {
        assert(n + rest =~= rest);
    }
}

/// A `DEVICE=` line gives its whole name: after any white space, `DEVICE=`
/// followed by one to fifteen characters that are neither white space nor a
/// colon gives those characters, whatever follows them where the name ends
/// (the line's end, white space, a colon, or anything after fifteen).
pub proof fn law_device_line_gives_name(w: Seq<char>, name: Seq<char>, rest: Seq<char>)
    requires
        forall|i: int| 0 <= i < w.len() ==> is_white_space(#[trigger] w[i]),
        1 <= name.len() <= 15,
        forall|i: int| 0 <= i < name.len() ==> !is_white_space(#[trigger] name[i]) && name[i] != ':',
        name.len() == 15 || rest.len() == 0 || is_white_space(rest[0]) || rest[0] == ':',
    ensures
        device_value(w + device_key() + name + rest) == Some(name),
{
    let x = device_key() + name + rest;
    assert(w + device_key() + name + rest =~= w + x);
    lemma_trim_white_space_prefix(w, x);
    assert(x[0] == 'D');
    assert(!is_white_space('D'));
    assert(trim_leading_white_space(x) == x);
    assert(x.take(7) =~= device_key());
    assert(x.skip(7) =~= name + rest);
    lemma_name_run_concat(name, rest);
    if rest.len() > 0 && (is_white_space(rest[0]) || rest[0] == ':') {
        assert(name_run_len(rest) == 0);
    }
    assert(x.subrange(7, 7 + name.len() as int) =~= name);
}

/// An `HWADDR=` line gives the address written after it, in upper or lower
/// case, whatever follows the address and whatever white space comes before
/// the key.
pub proof fn law_hwaddr_line_gives_address(w: Seq<char>, mac: Seq<u8>, rest: Seq<char>)
    requires
        forall|i: int| 0 <= i < w.len() ==> is_white_space(#[trigger] w[i]),
        mac.len() == 6,
    ensures
        hwaddr_value(w + hwaddr_key() + mac_text(mac) + rest) == Some(mac_text(mac)),
        hwaddr_value(w + hwaddr_key() + ascii_lowercase(mac_text(mac)) + rest) == Some(
            ascii_lowercase(mac_text(mac)),
        ),
{
    lemma_mac_text_colon_forms(mac);
    let t1 = mac_text(mac);
    let t2 = ascii_lowercase(mac_text(mac));
    let x1 = hwaddr_key() + t1 + rest;
    let x2 = hwaddr_key() + t2 + rest;
    assert(w + hwaddr_key() + t1 + rest =~= w + x1);
    assert(w + hwaddr_key() + t2 + rest =~= w + x2);
    lemma_trim_white_space_prefix(w, x1);
    lemma_trim_white_space_prefix(w, x2);
    assert(x1[0] == 'H' && x2[0] == 'H');
    assert(!is_white_space('H'));
    assert(trim_leading_white_space(x1) == x1);
    assert(trim_leading_white_space(x2) == x2);
    assert(x1.take(7) =~= hwaddr_key());
    assert(x2.take(7) =~= hwaddr_key());
    assert(x1.subrange(7, 24) =~= t1);
    assert(x2.subrange(7, 24) =~= t2);
}

/// The first file that names a device for the address gives the selection:
/// where the file at `i` names one and no file before it does, the result is
/// that file's name.
pub proof fn law_first_naming_config_wins(configs: Seq<Option<Seq<char>>>, mac_address: Seq<char>, i: int)
    requires
        0 <= i < configs.len(),
        configs[i] is Some,
        found_device_name(configs[i]->0, mac_address) is Some,
        forall|j: int|
            0 <= j < i ==> (#[trigger] configs[j] is None || found_device_name(configs[j]->0, mac_address) is None),
    ensures
        first_device_name(configs, mac_address) == found_device_name(configs[i]->0, mac_address),
    decreases i,
{
    if i > 0 {
        assert(configs[0] is None || found_device_name(configs[0]->0, mac_address) is None);
        let rest = configs.drop_first();
        assert(rest[i - 1] == configs[i]);
        assert forall|j: int| 0 <= j < i - 1 implies (#[trigger] rest[j] is None || found_device_name(
            rest[j]->0,
            mac_address,
        ) is None) by {
            assert(rest[j] == configs[j + 1]);
        }
        law_first_naming_config_wins(rest, mac_address, i - 1);
    }
}

/// Where no file names a device for the address, nothing is selected.
pub proof fn law_no_naming_config(configs: Seq<Option<Seq<char>>>, mac_address: Seq<char>)
    requires
        forall|j: int|
            0 <= j < configs.len() ==> (#[trigger] configs[j] is None || found_device_name(
                configs[j]->0,
                mac_address,
            ) is None),
    ensures
        first_device_name(configs, mac_address) is None,
    decreases configs.len(),
{
    if configs.len() > 0 {
        assert(configs[0] is None || found_device_name(configs[0]->0, mac_address) is None);
        let rest = configs.drop_first();
        assert forall|j: int| 0 <= j < rest.len() implies (#[trigger] rest[j] is None || found_device_name(
            rest[j]->0,
            mac_address,
        ) is None) by {
            assert(rest[j] == configs[j + 1]);
        }
        law_no_naming_config(rest, mac_address);
    }
}


/// The last lines of a file win: the hardware address of a file made of two
/// runs of lines is that of the second run if it gives one, else that of the
/// first; likewise the device name.
pub proof fn law_last_lines_win(a: Seq<Seq<char>>, b: Seq<Seq<char>>)
    ensures
        last_hwaddr(a + b) == (if last_hwaddr(b) is Some {
            last_hwaddr(b)
        } else {
            last_hwaddr(a)
        }),
        last_device(a + b) == (if last_device(b) is Some {
            last_device(b)
        } else {
            last_device(a)
        }),
    decreases b.len(),
{
    if b.len() == 0 {
        assert(a + b =~= a);
    } else {
        law_last_lines_win(a, b.drop_last());
        assert((a + b).drop_last() =~= a + b.drop_last());
        assert((a + b).last() == b.last());
    }
}

/// A line that gives an address, or a name, at the end of a file decides the
/// file's address, or name; a line that gives none leaves them as they were.
pub proof fn law_last_line(a: Seq<Seq<char>>, l: Seq<char>)
    ensures
        hwaddr_value(l) is Some ==> last_hwaddr(a.push(l)) == hwaddr_value(l),
        hwaddr_value(l) is None ==> last_hwaddr(a.push(l)) == last_hwaddr(a),
        device_value(l) is Some ==> last_device(a.push(l)) == device_value(l),
        device_value(l) is None ==> last_device(a.push(l)) == last_device(a),
{
    assert(a.push(l).drop_last() =~= a);
    assert(a.push(l).last() == l);
}

/// Selecting among one readable file gives exactly what `config_file`
/// promises for it: the name of its last `DEVICE=` line when its last
/// hardware address is the one sought, and nothing otherwise.
pub proof fn law_single_config_selection(content: Seq<char>, mac_address: Seq<char>)
    ensures
        first_device_name(seq![Some(content)], mac_address) == (if config_matches(content, mac_address) {
            last_device(lines_of(content))
        } else {
            None
        }),
{
    let c = seq![Some(content)];
    assert(c[0] == Some(content));
    assert(c.drop_first() =~= Seq::<Option<Seq<char>>>::empty());
    assert(first_device_name(Seq::<Option<Seq<char>>>::empty(), mac_address) is None);
}

} // verus!
