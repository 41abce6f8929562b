//! The options of a session, their defaults, and the texts that override
//! them.

use crate::text::{chars_of, push_str, str_eq, string_of};
use vstd::prelude::*;

verus! {

/// How the hunks are shown.
#[derive(Clone, Copy, Debug, PartialEq, Eq, Structural)]
pub enum Interface {
    /// One after the other, each below the last.
    Direct,
    /// Each in the place of the last, which is erased first.
    InlineClear,
}

/// A text that names none of the values of an enumeration.
#[derive(Debug)]
pub struct ParseEnumError(pub Vec<String>, pub String);

/// The value of an option could not be read.
#[derive(Debug)]
pub enum ConfigError {
    /// No number; the fields are the option's name and the text.
    Number(String, String),
    /// No boolean; the fields are the option's name and the text.
    Boolean(String, String),
    /// No interface; the fields are the option's name and what was wrong
    /// with the text.
    Interface(String, ParseEnumError),
}

/// The options of a session.
#[derive(Debug)]
pub struct Options {
    /// The number of unchanged lines shown around each change.
    pub context_len: usize,
    /// Whether hunks are shown as their reverse.
    pub reversed: bool,
    /// How the hunks are shown.
    pub interface: Interface,
    /// Whether one keystroke is an answer, without the return key.
    pub immediate_command: bool,
    /// The subcommand of the version-control tool that started the session.
    pub jj_subcommand: Option<String>,
}

/// The interface that `s` names.
pub open spec fn named_interface(s: Seq<char>) -> Option<Interface> {
    if s == "direct"@ {
        Some(Interface::Direct)
    } else if s == "inline-clear"@ {
        Some(Interface::InlineClear)
    } else {
        None
    }
}

/// The boolean that `s` names: `yes`, `y`, `1` and `true` are true; `no`,
/// `n`, `0` and `false` are false; nothing else is a boolean.
pub open spec fn named_bool(s: Seq<char>) -> Option<bool> {
    if s == "yes"@ || s == "y"@ || s == "1"@ || s == "true"@ {
        Some(true)
    } else if s == "no"@ || s == "n"@ || s == "0"@ || s == "false"@ {
        Some(false)
    } else {
        None
    }
}

/// The digit that `c` is, or `-1` where it is none.
pub open spec fn digit_value(c: char) -> int {
    if c == '0' {
        0
    } else if c == '1' {
        1
    } else if c == '2' {
        2
    } else if c == '3' {
        3
    } else if c == '4' {
        4
    } else if c == '5' {
        5
    } else if c == '6' {
        6
    } else if c == '7' {
        7
    } else if c == '8' {
        8
    } else if c == '9' {
        9
    } else {
        -1
    }
}

/// The number that the digits `s` write in base ten, or `None` where `s` is
/// empty or holds anything but digits.
pub open spec fn digits_number(s: Seq<char>) -> Option<nat>
    decreases s.len(),
{
    if s.len() == 0 {
        None
    } else if digit_value(s.last()) < 0 {
        None
    } else if s.len() == 1 {
        Some(digit_value(s.last()) as nat)
    } else {
        match digits_number(s.drop_last()) {
            Some(n) => Some((n * 10 + digit_value(s.last())) as nat),
            None => None,
        }
    }
}

/// The number that `s` names: digits, with or without a plus sign before
/// them.
pub open spec fn named_number(s: Seq<char>) -> Option<nat> {
    if s.len() > 0 && s[0] == '+' {
        digits_number(s.drop_first())
    } else {
        digits_number(s)
    }
}

/// The digit that `c` is.
fn digit_of_char(c: char) -> (d: Option<usize>)
    ensures
        d matches Some(v) ==> v == digit_value(c) && v < 10,
        d is None ==> digit_value(c) < 0,
{
    if c == '0' {
        Some(0)
    } else if c == '1' {
        Some(1)
    } else if c == '2' {
        Some(2)
    } else if c == '3' {
        Some(3)
    } else if c == '4' {
        Some(4)
    } else if c == '5' {
        Some(5)
    } else if c == '6' {
        Some(6)
    } else if c == '7' {
        Some(7)
    } else if c == '8' {
        Some(8)
    } else if c == '9' {
        Some(9)
    } else {
        None
    }
}

/// Digits after a text that is no number do not make it one.
proof fn lemma_digits_prefix(s: Seq<char>, k: int)
    requires
        0 < k <= s.len(),
        digits_number(s.take(k)) is None,
    ensures
        digits_number(s) is None,
    decreases s.len() - k,
{
    if k < s.len() {
        assert(s.take(k + 1).drop_last() == s.take(k));
        lemma_digits_prefix(s, k + 1);
    } else {
        assert(s.take(k) == s);
    }
}

/// A number is no smaller than the number that its first digits write.
proof fn lemma_digits_grow(s: Seq<char>, k: int)
    requires
        0 < k <= s.len(),
        digits_number(s.take(k)) is Some,
        digits_number(s) is Some,
    ensures
        digits_number(s.take(k))->0 <= digits_number(s)->0,
    decreases s.len() - k,
{
    if k < s.len() {
        assert(s.take(k + 1).drop_last() == s.take(k));
        if digits_number(s.take(k + 1)) is None {
            lemma_digits_prefix(s, k + 1);
        }
        lemma_digits_grow(s, k + 1);
    } else {
        assert(s.take(k) == s);
    }
}

/// The number that `s` names, where it names one that a `usize` holds.
pub fn parse_number(s: &str) -> (r: Option<usize>)
    ensures
        r matches Some(n) ==> named_number(s@) == Some(n as nat),
        r is None ==> named_number(s@) is None || named_number(s@)->0 > usize::MAX,
{
    let chars = chars_of(s);
    let start: usize = if chars.len() > 0 && chars[0] == '+' {
        1
    } else {
        0
    };
    let ghost digits = chars@.skip(start as int);
    proof {
        if start == 1 {
            assert(digits == chars@.drop_first());
        } else {
            assert(digits == chars@);
        }
    }
    if start >= chars.len() {
        return None;
    }
    let mut n: usize = 0;
    let mut i: usize = start;
    while i < chars.len()
        invariant
            start <= i <= chars@.len(),
            start < chars@.len(),
            digits == chars@.skip(start as int),
            named_number(s@) == digits_number(digits),
            i > start ==> digits_number(digits.take(i - start)) == Some(n as nat),
            i == start ==> n == 0,
        decreases chars@.len() - i,
    {
        let ghost k = i - start;
        proof {
            assert(digits.take(k + 1).drop_last() == digits.take(k));
            assert(digits.take(k + 1).last() == chars@[i as int]);
        }
        match digit_of_char(chars[i]) {
            None => {
                proof {
                    lemma_digits_prefix(digits, k + 1);
                }
                return None;
            },
            Some(d) => {
                if n > (usize::MAX - d) / 10 {
                    proof {
                        assert(n * 10 + d > usize::MAX);
                        assert(digits_number(digits.take(k + 1)) == Some((n * 10 + d) as nat));
                        if digits_number(digits) is Some {
                            lemma_digits_grow(digits, k + 1);
                        }
                    }
                    return None;
                }
                n = n * 10 + d;
            },
        }
        i += 1;
    }
    proof {
        assert(digits.take(i - start) == digits);
    }
    Some(n)
}

/// The boolean that `s` names.
pub fn parse_bool(s: &str) -> (r: Option<bool>)
    ensures
        r == named_bool(s@),
{
    if str_eq(s, "yes") || str_eq(s, "y") || str_eq(s, "1") || str_eq(s, "true") {
        Some(true)
    } else if str_eq(s, "no") || str_eq(s, "n") || str_eq(s, "0") || str_eq(s, "false") {
        Some(false)
    } else {
        None
    }
}

impl Interface {
    /// The interface that `s` names; the error holds the names that exist,
    /// and `s`.
    pub fn from_str(s: &str) -> (r: Result<Interface, ParseEnumError>)
        ensures
            match r {
                Ok(i) => named_interface(s@) == Some(i),
                Err(e) => named_interface(s@) is None && e.1@ == s@ && e.0@.len() == 2 && e.0@[0]@
                    == "direct"@ && e.0@[1]@ == "inline-clear"@,
            },
    {
        if str_eq(s, "direct") {
            Ok(Interface::Direct)
        } else if str_eq(s, "inline-clear") {
            Ok(Interface::InlineClear)
        } else {
            let mut possible: Vec<String> = Vec::new();
            possible.push("direct".to_owned());
            possible.push("inline-clear".to_owned());
            Err(ParseEnumError(possible, s.to_owned()))
        }
    }
}

impl core::str::FromStr for Interface {
    type Err = ParseEnumError;

    fn from_str(s: &str) -> (r: Result<Self, ParseEnumError>)
        ensures
            match r {
                Ok(i) => named_interface(s@) == Some(i),
                Err(e) => named_interface(s@) is None && e.1@ == s@ && e.0@.len() == 2 && e.0@[0]@
                    == "direct"@ && e.0@[1]@ == "inline-clear"@,
            },
    {
        Interface::from_str(s)
    }
}

/// The names `names` as the error lists them: each followed by a comma and a
/// space.
pub open spec fn listed(names: Seq<String>) -> Seq<char>
    decreases names.len(),
{
    if names.len() == 0 {
        Seq::empty()
    } else {
        listed(names.drop_last()) + names.last()@ + ", "@
    }
}

impl ParseEnumError {
    /// The error in words.
    pub open spec fn text(&self) -> Seq<char> {
        "Expected one of "@ + listed(self.0@) + "got '"@ + self.1@ + "'"@
    }

    /// The error in words.
    pub fn message(&self) -> (s: String)
        ensures
            s@ == self.text(),
    {
        let mut out: Vec<char> = Vec::new();
        push_str(&mut out, "Expected one of ");
        let ghost head = out@;
        let mut i: usize = 0;
        while i < self.0.len()
            invariant
                i <= self.0@.len(),
                out@ == head + listed(self.0@.take(i as int)),
            decreases self.0@.len() - i,
        {
            proof {
                assert(self.0@.take(i + 1).drop_last() == self.0@.take(i as int));
            }
            push_str(&mut out, self.0[i].as_str());
            push_str(&mut out, ", ");
            i += 1;
        }
        proof {
            assert(self.0@.take(i as int) == self.0@);
        }
        push_str(&mut out, "got '");
        push_str(&mut out, self.1.as_str());
        push_str(&mut out, "'");
        string_of(out.as_slice())
    }
}

impl ConfigError {
    /// The error in words.
    pub open spec fn text(&self) -> Seq<char> {
        match self {
            ConfigError::Number(name, value) => name@ + "="@ + value@ + " could not be parsed"@,
            ConfigError::Boolean(name, value) => name@ + "="@ + value@
                + " could not be parsed as a boolean"@,
            ConfigError::Interface(name, e) => name@ + "="@ + e.1@ + " could not be parsed: "@
                + e.text(),
        }
    }

    /// The error in words.
    pub fn message(&self) -> (s: String)
        ensures
            s@ == self.text(),
    {
        let mut out: Vec<char> = Vec::new();
        match self {
            ConfigError::Number(name, value) => {
                push_str(&mut out, name.as_str());
                push_str(&mut out, "=");
                push_str(&mut out, value.as_str());
                push_str(&mut out, " could not be parsed");
            },
            ConfigError::Boolean(name, value) => {
                push_str(&mut out, name.as_str());
                push_str(&mut out, "=");
                push_str(&mut out, value.as_str());
                push_str(&mut out, " could not be parsed as a boolean");
            },
            ConfigError::Interface(name, e) => {
                push_str(&mut out, name.as_str());
                push_str(&mut out, "=");
                push_str(&mut out, e.1.as_str());
                push_str(&mut out, " could not be parsed: ");
                let m = e.message();
                push_str(&mut out, m.as_str());
            },
        }
        string_of(out.as_slice())
    }
}

/// Whether `var` is absent or names a number that a `usize` holds.
pub open spec fn number_ok(var: Option<&str>) -> bool {
    var matches Some(v) ==> named_number(v@) is Some && named_number(v@)->0 <= usize::MAX
}

/// The number that `var` sets in place of `old`.
pub open spec fn number_set(old: usize, var: Option<&str>) -> int {
    match var {
        Some(v) => named_number(v@)->0 as int,
        None => old as int,
    }
}

/// Whether `var` is absent or names a boolean.
pub open spec fn bool_ok(var: Option<&str>) -> bool {
    var matches Some(v) ==> named_bool(v@) is Some
}

/// The boolean that `var` sets in place of `old`.
pub open spec fn bool_set(old: bool, var: Option<&str>) -> bool {
    match var {
        Some(v) => named_bool(v@)->0,
        None => old,
    }
}

/// Whether `var` is absent or names an interface.
pub open spec fn interface_ok(var: Option<&str>) -> bool {
    var matches Some(v) ==> named_interface(v@) is Some
}

/// The interface that `var` sets in place of `old`.
pub open spec fn interface_set(old: Interface, var: Option<&str>) -> Interface {
    match var {
        Some(v) => named_interface(v@)->0,
        None => old,
    }
}

/// The interface that clears the screen after each hunk, or the one that
/// does not.
pub open spec fn interface_for(clear: bool) -> Interface {
    if clear {
        Interface::InlineClear
    } else {
        Interface::Direct
    }
}

/// Sets `out` to the number that the variable `env_name` holds, where it is
/// set. A text that is no number is an error, and leaves `out` as it is.
pub fn get_env(out: &mut usize, env_name: &str, var: Option<&str>) -> (r: Result<(), ConfigError>)
    ensures
        r is Ok <==> number_ok(var),
        r is Ok ==> *final(out) == number_set(*old(out), var),
        r matches Err(e) ==> *final(out) == *old(out) && (e matches ConfigError::Number(n, v)
            && n@ == env_name@ && v@ == var->0@),
{
    match var {
        None => Ok(()),
        Some(v) => match parse_number(v) {
            Some(n) => {
                *out = n;
                Ok(())
            },
            None => Err(ConfigError::Number(env_name.to_owned(), v.to_owned())),
        },
    }
}

/// Sets `out` to the boolean that the variable `env_name` holds, where it is
/// set. A text that is no boolean is an error, and leaves `out` as it is.
pub fn get_env_bool(out: &mut bool, env_name: &str, var: Option<&str>) -> (r: Result<
    (),
    ConfigError,
>)
    ensures
        r is Ok <==> bool_ok(var),
        r is Ok ==> *final(out) == bool_set(*old(out), var),
        r matches Err(e) ==> *final(out) == *old(out) && (e matches ConfigError::Boolean(n, v)
            && n@ == env_name@ && v@ == var->0@),
{
    match var {
        None => Ok(()),
        Some(v) => match parse_bool(v) {
            Some(b) => {
                *out = b;
                Ok(())
            },
            None => Err(ConfigError::Boolean(env_name.to_owned(), v.to_owned())),
        },
    }
}

/// Sets `out` to the interface that the variable `env_name` holds, where it
/// is set. A text that names no interface is an error, and leaves `out` as
/// it is.
pub fn get_env_interface(out: &mut Interface, env_name: &str, var: Option<&str>) -> (r: Result<
    (),
    ConfigError,
>)
    ensures
        r is Ok <==> interface_ok(var),
        r is Ok ==> *final(out) == interface_set(*old(out), var),
        r matches Err(e) ==> *final(out) == *old(out) && (e matches ConfigError::Interface(n, p)
            && n@ == env_name@ && p.1@ == var->0@),
{
    match var {
        None => Ok(()),
        Some(v) => match Interface::from_str(v) {
            Ok(i) => {
                *out = i;
                Ok(())
            },
            Err(e) => Err(ConfigError::Interface(env_name.to_owned(), e)),
        },
    }
}

impl Options {
    /// The options of a session that the subcommand `subcommand` of the
    /// version-control tool has started: the defaults, with hunks shown
    /// reversed where the subcommand is `restore`.
    pub fn for_subcommand(subcommand: Option<String>) -> (o: Options)
        ensures
            o.context_len == 3,
            o.interface == Interface::Direct,
            o.immediate_command,
            o.jj_subcommand == subcommand,
            o.reversed == (subcommand matches Some(s) && s@ == "restore"@),
    {
        let reversed = match &subcommand {
            Some(s) => str_eq(s.as_str(), "restore"),
            None => false,
        };
        Options {
            context_len: 3,
            reversed,
            interface: Interface::Direct,
            immediate_command: true,
            jj_subcommand: subcommand,
        }
    }

    /// Whether the screen is cleared after each hunk.
    pub fn clear_after_hunk(&self) -> (b: bool)
        ensures
            b == (self.interface == Interface::InlineClear),
    {
        match self.interface {
            Interface::InlineClear => true,
            Interface::Direct => false,
        }
    }

    /// Overrides the options with the values of the variables of the
    /// environment that are set: the context length, the interface, whether
    /// the screen is cleared after each hunk, and whether one keystroke is
    /// an answer. They are read in this order; the first that cannot be
    /// read is the error, and the options set before it stay set.
    pub fn load_env(
        &mut self,
        context_len: Option<&str>,
        interface: Option<&str>,
        clear_after_hunk: Option<&str>,
        immediate_command: Option<&str>,
    ) -> (r: Result<(), ConfigError>)
        ensures
            r is Ok <==> number_ok(context_len) && interface_ok(interface) && bool_ok(
                clear_after_hunk,
            ) && bool_ok(immediate_command),
            final(self).reversed == old(self).reversed,
            final(self).jj_subcommand == old(self).jj_subcommand,
            final(self).context_len == if number_ok(context_len) {
                number_set(old(self).context_len, context_len)
            } else {
                old(self).context_len as int
            },
            final(self).interface == if number_ok(context_len) && interface_ok(interface) {
                if bool_ok(clear_after_hunk) && clear_after_hunk is Some {
                    interface_for(named_bool(clear_after_hunk->0@)->0)
                } else {
                    interface_set(old(self).interface, interface)
                }
            } else {
                old(self).interface
            },
            final(self).immediate_command == if r is Ok {
                bool_set(old(self).immediate_command, immediate_command)
            } else {
                old(self).immediate_command
            },
            !number_ok(context_len) ==> r matches Err(ConfigError::Number(_, _)),
            number_ok(context_len) && !interface_ok(interface) ==> r matches Err(
                ConfigError::Interface(_, _),
            ),
            number_ok(context_len) && interface_ok(interface) && !(bool_ok(clear_after_hunk)
                && bool_ok(immediate_command)) ==> r matches Err(ConfigError::Boolean(_, _)),
    {
        get_env(&mut self.context_len, "DIFFPATCH_CONTEXT_LEN", context_len)?;
        get_env_interface(&mut self.interface, "DIFFPATCH_INTERFACE", interface)?;
        let mut clear = self.clear_after_hunk();
        get_env_bool(&mut clear, "DIFFPATCH_CLEAR_AFTER_HUNK", clear_after_hunk)?;
        if clear_after_hunk.is_some() {
            self.interface = if clear {
                Interface::InlineClear
            } else {
                Interface::Direct
            };
        }
        get_env_bool(&mut self.immediate_command, "DIFFPATCH_IMMEDIATE_COMMAND", immediate_command)?;
        Ok(())
    }
}

/// Whether `s` begins with `prefix`.
pub open spec fn starts_with(s: Seq<char>, prefix: Seq<char>) -> bool {
    prefix.len() <= s.len() && s.take(prefix.len() as int) == prefix
}

/// The subcommand that `name` stands for: `commit` for a name that begins
/// with `ci`, `squash` for one that begins with `sq`, else the name itself.
pub open spec fn full_subcommand(name: Seq<char>) -> Seq<char> {
    if starts_with(name, "ci"@) {
        "commit"@
    } else if starts_with(name, "sq"@) {
        "squash"@
    } else {
        name
    }
}

/// The subcommand in the command line `args` of the version-control tool:
/// the first argument after the name of the tool that begins with no
/// hyphen. `None` where the command line is that of another program, or
/// holds no such argument.
pub open spec fn subcommand_of(args: Seq<Seq<char>>) -> Option<Seq<char>> {
    if args.len() == 0 || args[0] != "jj"@ {
        None
    } else {
        first_plain(args.drop_first())
    }
}

/// The subcommand that stands first among `args`, options passed over.
pub open spec fn first_plain(args: Seq<Seq<char>>) -> Option<Seq<char>>
    decreases args.len(),
{
    if args.len() == 0 {
        None
    } else if starts_with(args[0], "-"@) {
        first_plain(args.drop_first())
    } else {
        Some(full_subcommand(args[0]))
    }
}

/// Whether `s` begins with `prefix`.
fn has_prefix(s: &[char], prefix: &str) -> (r: bool)
    ensures
        r == starts_with(s@, prefix@),
{
    let p = chars_of(prefix);
    if p.len() > s.len() {
        return false;
    }
    let mut i: usize = 0;
    while i < p.len()
        invariant
            i <= p@.len() <= s@.len(),
            p@ == prefix@,
            forall|j: int| 0 <= j < i ==> s@[j] == p@[j],
        decreases p@.len() - i,
    {
        if s[i] != p[i] {
            proof {
                assert(s@.take(p@.len() as int)[i as int] != p@[i as int]);
            }
            return false;
        }
        i += 1;
    }
    proof {
        assert(s@.take(p@.len() as int) =~= p@);
    }
    true
}

/// The subcommand with which the version-control tool was started, from
/// the arguments `args` of its command line.
pub fn get_jj_subcommand(args: &Vec<String>) -> (r: Option<String>)
    ensures
        match r {
            Some(s) => subcommand_of(crate::paths::strings_view(args@)) == Some(s@),
            None => subcommand_of(crate::paths::strings_view(args@)) is None,
        },
{
    let ghost all = crate::paths::strings_view(args@);
    if args.len() == 0 || !str_eq(args[0].as_str(), "jj") {
        return None;
    }
    let mut i: usize = 1;
    proof {
        assert(all.drop_first() == all.skip(1));
        assert(all[0] == args@[0]@);
    }
    while i < args.len()
        invariant
            1 <= i <= args@.len(),
            all == crate::paths::strings_view(args@),
            subcommand_of(all) == first_plain(all.skip(i as int)),
        decreases args@.len() - i,
    {
        let arg = chars_of(args[i].as_str());
        proof {
            assert(all.skip(i as int).drop_first() == all.skip(i + 1));
            assert(all.skip(i as int)[0] == arg@);
        }
        if !has_prefix(arg.as_slice(), "-") {
            if has_prefix(arg.as_slice(), "ci") {
                return Some("commit".to_owned());
            }
            if has_prefix(arg.as_slice(), "sq") {
                return Some("squash".to_owned());
            }
            return Some(args[i].clone());
        }
        i += 1;
    }
    None
}

impl Default for Options {
    fn default() -> (o: Self)
        ensures
            o.context_len == 3,
            !o.reversed,
            o.interface == Interface::Direct,
            o.immediate_command,
            o.jj_subcommand is None,
    {
        Options {
            context_len: 3,
            reversed: false,
            interface: Interface::Direct,
            immediate_command: true,
            jj_subcommand: None,
        }
    }
}

} // verus!
