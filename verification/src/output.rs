//! The text the commands print and the argument vectors handed to the
//! external secure-shell client.

use vstd::prelude::*;
use vstd::string::*;
use crate::profile::{Profile, ProfileV};
use crate::numbers::{dec_of, u16_to_string};
use crate::ops::{views, first_match_at, no_match, find_connection};
use crate::strings::{escaped, escape_str};

verus! {

/// The escape sequence that turns the foreground green.
pub open spec fn sgr_green() -> Seq<char> {
    seq!['\u{1b}', '[', '3', '2', 'm']
}

/// The escape sequence that turns the foreground bold green.
pub open spec fn sgr_green_bold() -> Seq<char> {
    seq!['\u{1b}', '[', '1', ';', '3', '2', 'm']
}

/// The escape sequence that turns the foreground blue.
pub open spec fn sgr_blue() -> Seq<char> {
    seq!['\u{1b}', '[', '3', '4', 'm']
}

/// The escape sequence that resets the style.
pub open spec fn sgr_reset() -> Seq<char> {
    seq!['\u{1b}', '[', '0', 'm']
}

/// Relies on `ansi_term::Colour::Green.paint(..).to_string()`: the text
/// between the green escape sequence and the reset.
#[verifier::external_body]
fn paint_green(s: &str) -> (r: String)
    ensures
        r@ == sgr_green() + s@ + sgr_reset(),
{
    ansi_term::Colour::Green.paint(s).to_string()
}

/// Relies on `ansi_term::Colour::Green.bold().paint(..).to_string()`: the
/// text between the bold-green escape sequence and the reset.
#[verifier::external_body]
fn paint_green_bold(s: &str) -> (r: String)
    ensures
        r@ == sgr_green_bold() + s@ + sgr_reset(),
{
    ansi_term::Colour::Green.bold().paint(s).to_string()
}

/// Relies on `ansi_term::Colour::Blue.paint(..).to_string()`: the text
/// between the blue escape sequence and the reset.
#[verifier::external_body]
fn paint_blue(s: &str) -> (r: String)
    ensures
        r@ == sgr_blue() + s@ + sgr_reset(),
{
    ansi_term::Colour::Blue.paint(s).to_string()
}

/// The listing line for one profile: name, host, port and username, each
/// value coloured, the name in bold.
pub open spec fn list_line_of(p: ProfileV) -> Seq<char> {
    "Name: "@ + sgr_green_bold() + p.name + sgr_reset() + ", Host: "@ + sgr_green() + p.host
        + sgr_reset() + ", Port: "@ + sgr_green() + dec_of(p.port as int) + sgr_reset()
        + ", Username: "@ + sgr_green() + p.username + sgr_reset()
}

/// The line that stands in for an empty listing.
pub open spec fn no_connections_line() -> Seq<char> {
    "No SSH connections found."@
}

/// Renders the listing line for one profile.
pub fn list_line(p: &Profile) -> (r: String)
    ensures
        r@ == list_line_of(p@),
{
    let mut s = String::new();
    s.append("Name: ");
    s.append(paint_green_bold(p.name.as_str()).as_str());
    s.append(", Host: ");
    s.append(paint_green(p.host.as_str()).as_str());
    s.append(", Port: ");
    s.append(paint_green(u16_to_string(p.port).as_str()).as_str());
    s.append(", Username: ");
    s.append(paint_green(p.username.as_str()).as_str());
    proof {
        assert(s@ =~= list_line_of(p@));
    }
    s
}

/// What the list command prints: one line per profile in stored order, or
/// the distinct no-connections line when the collection is empty.
pub fn list_output(conns: &Vec<Profile>) -> (r: Vec<String>)
    ensures
        conns@.len() == 0 ==> r@.len() == 1 && r@[0]@ == no_connections_line(),
        conns@.len() > 0 ==> {
            &&& r@.len() == conns@.len()
            &&& forall|i: int| 0 <= i < r@.len() ==> r@[i]@ == list_line_of(conns@[i]@)
        },
{
    let mut r: Vec<String> = Vec::new();
    if conns.len() == 0 {
        r.push("No SSH connections found.".to_owned());
        return r;
    }
    let mut i: usize = 0;
    while i < conns.len()
        invariant
            0 <= i <= conns@.len(),
            r@.len() == i,
            forall|j: int| 0 <= j < i ==> r@[j]@ == list_line_of(conns@[j]@),
        decreases conns@.len() - i,
    {
        r.push(list_line(&conns[i]));
        i += 1;
    }
    r
}

/// The confirmation printed after an add.
pub fn added_message() -> (r: String)
    ensures
        r@ == "Connection added!"@,
{
    "Connection added!".to_owned()
}

/// The confirmation printed after a delete, whether or not anything matched.
pub fn deleted_message() -> (r: String)
    ensures
        r@ == "Connection deleted!"@,
{
    "Connection deleted!".to_owned()
}

/// The message for a name that no profile bears.
pub open spec fn not_found_line(name: Seq<char>) -> Seq<char> {
    "Connection '"@ + name + "' not found."@
}

/// Renders the not-found message for a name.
pub fn not_found_message(name: &str) -> (r: String)
    ensures
        r@ == not_found_line(name@),
{
    let mut s = String::new();
    s.append("Connection '");
    s.append(name);
    s.append("' not found.");
    proof {
        assert(s@ =~= not_found_line(name@));
    }
    s
}

/// The message for a snippet name that no profile bears.
pub open spec fn snippet_not_found_line(name: Seq<char>) -> Seq<char> {
    "Connection with name '"@ + name + "' not found."@
}

/// Renders the snippet not-found message for a name.
pub fn snippet_not_found_message(name: &str) -> (r: String)
    ensures
        r@ == snippet_not_found_line(name@),
{
    let mut s = String::new();
    s.append("Connection with name '");
    s.append(name);
    s.append("' not found.");
    proof {
        assert(s@ =~= snippet_not_found_line(name@));
    }
    s
}

/// The message for an edit property that is not a profile field.
pub open spec fn invalid_property_line(property: Seq<char>) -> Seq<char> {
    "Invalid property: "@ + property
}

/// Renders the invalid-property message.
pub fn invalid_property_message(property: &str) -> (r: String)
    ensures
        r@ == invalid_property_line(property@),
{
    let mut s = String::new();
    s.append("Invalid property: ");
    s.append(property);
    proof {
        assert(s@ =~= invalid_property_line(property@));
    }
    s
}

/// The confirmation printed after an edit was written back: the property
/// plain, the name blue, the new value green.
pub open spec fn edit_updated_line(
    property: Seq<char>,
    name: Seq<char>,
    value: Seq<char>,
) -> Seq<char> {
    "Property "@ + property + " of "@ + sgr_blue() + name + sgr_reset()
        + " connection updated to "@ + sgr_green() + value + sgr_reset() + "."@
}

/// Renders the edit confirmation.
pub fn edit_updated_message(property: &str, name: &str, value: &str) -> (r: String)
    ensures
        r@ == edit_updated_line(property@, name@, value@),
{
    let mut s = String::new();
    s.append("Property ");
    s.append(property);
    s.append(" of ");
    s.append(paint_blue(name).as_str());
    s.append(" connection updated to ");
    s.append(paint_green(value).as_str());
    s.append(".");
    proof {
        assert(s@ =~= edit_updated_line(property@, name@, value@));
    }
    s
}

/// The confirmation printed after a snippet ran with exit status zero.
pub fn snippet_success_message() -> (r: String)
    ensures
        r@ == "Snippet executed successfully on the remote host."@,
{
    "Snippet executed successfully on the remote host.".to_owned()
}

/// The `<username>@<host>` target handed to the shell client.
pub open spec fn target_of(p: ProfileV) -> Seq<char> {
    p.username + seq!['@'] + p.host
}

/// Renders the `<username>@<host>` target of a profile.
pub fn target_string(p: &Profile) -> (r: String)
    ensures
        r@ == target_of(p@),
{
    let mut s = String::new();
    s.append(p.username.as_str());
    s.append("@");
    proof {
        reveal_strlit("@");
        assert("@"@ =~= seq!['@']);
    }
    s.append(p.host.as_str());
    proof {
        assert(s@ =~= target_of(p@));
    }
    s
}

/// The remote pre-command of an interactive session: echoes the quoted
/// welcome message, the empty string when there is none.
pub open spec fn echo_arg_of(welcome: Option<Seq<char>>) -> Seq<char> {
    "echo \""@ + escaped(
        match welcome {
            Some(w) => w,
            None => Seq::<char>::empty(),
        },
    ) + "\" ;"@
}

/// Renders the echo pre-command for a welcome message.
pub fn echo_arg(welcome: &Option<String>) -> (r: String)
    ensures
        r@ == echo_arg_of(
            match welcome {
                Some(w) => Some(w@),
                None => None,
            },
        ),
{
    let mut s = String::new();
    s.append("echo \"");
    match welcome {
        Some(w) => {
            let e = escape_str(w.as_str());
            s.append(e.as_str());
        },
        None => {
        },
    }
    s.append("\" ;");
    proof {
        assert(s@ =~= echo_arg_of(
            match welcome {
                Some(w) => Some(w@),
                None => None,
            },
        ));
    }
    s
}

/// The shell fallback chain run after the welcome echo.
pub fn shell_chain_arg() -> (r: String)
    ensures
        r@ == "exec $SHELL || bash || zsh || sh || /bin/sh"@,
{
    "exec $SHELL || bash || zsh || sh || /bin/sh".to_owned()
}

/// The remote pipeline a snippet is run through: written to a temporary
/// script file, marked executable, run, and removed.
pub fn snippet_pipeline_arg() -> (r: String)
    ensures
        r@
            == "cat > ~/received_script.sh && chmod +x ~/received_script.sh && ./received_script.sh && rm ~/received_script.sh"@,
{
    "cat > ~/received_script.sh && chmod +x ~/received_script.sh && ./received_script.sh && rm ~/received_script.sh".to_owned()
}

/// The program every session is spawned through.
pub fn ssh_program() -> (r: String)
    ensures
        r@ == "ssh"@,
{
    "ssh".to_owned()
}

/// The line printed before an interactive session is opened.
pub open spec fn open_display_of(p: ProfileV) -> Seq<char> {
    "Opening SSH connection: ssh -t "@ + target_of(p) + " -p "@ + dec_of(p.port as int)
}

/// What a lookup-then-launch command decides: either the exact program and
/// argument vector to spawn, or the message to print instead — a missing
/// name spawns nothing.
pub enum LaunchPlan {
    /// Spawn `program` with `args`; `index` is the first matching profile,
    /// and `display` the lines to print before spawning.
    Launch { index: usize, display: Vec<String>, program: String, args: Vec<String> },
    /// No profile bears the name: print the message, spawn nothing.
    NotFound { message: String },
}

/// Decides the interactive open command: the first profile bearing the name
/// is opened with a forced pseudo-terminal, explicit port, welcome echo and
/// shell fallback chain; a missing name only reports.
pub fn open_plan(conns: &Vec<Profile>, name: &str) -> (r: LaunchPlan)
    ensures
        match r {
            LaunchPlan::Launch { index, display, program, args } => {
                &&& first_match_at(views(conns@), name@, index as int)
                &&& display@.len() == 1
                &&& display@[0]@ == open_display_of(conns@[index as int]@)
                &&& program@ == "ssh"@
                &&& args@.len() == 6
                &&& args@[0]@ == "-t"@
                &&& args@[1]@ == target_of(conns@[index as int]@)
                &&& args@[2]@ == "-p"@
                &&& args@[3]@ == dec_of(conns@[index as int]@.port as int)
                &&& args@[4]@ == echo_arg_of(conns@[index as int]@.welcome_message)
                &&& args@[5]@ == "exec $SHELL || bash || zsh || sh || /bin/sh"@
            },
            LaunchPlan::NotFound { message } => {
                &&& no_match(views(conns@), name@)
                &&& message@ == not_found_line(name@)
            },
        },
{
    match find_connection(conns, name) {
        None => LaunchPlan::NotFound { message: not_found_message(name) },
        Some(i) => {
            let p = &conns[i];
            let target = target_string(p);
            let port = u16_to_string(p.port);
            let mut line = String::new();
            line.append("Opening SSH connection: ssh -t ");
            line.append(target.as_str());
            line.append(" -p ");
            line.append(port.as_str());
            proof {
                assert(line@ =~= open_display_of(conns@[i as int]@));
            }
            let mut display: Vec<String> = Vec::new();
            display.push(line);
            let mut args: Vec<String> = Vec::new();
            args.push("-t".to_owned());
            args.push(target);
            args.push("-p".to_owned());
            args.push(port);
            args.push(echo_arg(&p.welcome_message));
            args.push(shell_chain_arg());
            LaunchPlan::Launch { index: i, display, program: ssh_program(), args }
        },
    }
}

/// Decides the snippet command: the first profile bearing the name has the
/// remote pipeline spawned against it; a missing name only reports. The
/// script itself travels over the child's standard input.
pub fn snippet_plan(conns: &Vec<Profile>, name: &str) -> (r: LaunchPlan)
    ensures
        match r {
            LaunchPlan::Launch { index, display, program, args } => {
                &&& first_match_at(views(conns@), name@, index as int)
                &&& display@.len() == 0
                &&& program@ == "ssh"@
                &&& args@.len() == 2
                &&& args@[0]@ == target_of(conns@[index as int]@)
                &&& args@[1]@
                    == "cat > ~/received_script.sh && chmod +x ~/received_script.sh && ./received_script.sh && rm ~/received_script.sh"@
            },
            LaunchPlan::NotFound { message } => {
                &&& no_match(views(conns@), name@)
                &&& message@ == snippet_not_found_line(name@)
            },
        },
{
    match find_connection(conns, name) {
        None => LaunchPlan::NotFound { message: snippet_not_found_message(name) },
        Some(i) => {
            let p = &conns[i];
            let mut args: Vec<String> = Vec::new();
            args.push(target_string(p));
            args.push(snippet_pipeline_arg());
            LaunchPlan::Launch {
                index: i,
                display: Vec::new(),
                program: ssh_program(),
                args,
            }
        },
    }
}

} // verus!
