//! Signing in: where an account is registered, what the user is told and asked.

use vstd::prelude::*;
use vstd::string::StringExecFns;
use super::error::AccountError;
use crate::lists::holds_text;
use crate::lists::push_text;
use crate::text::cat2;
use crate::text::cat3;
use crate::text::cat4;
use crate::text::cat5;
use crate::text::contains_char;
use crate::text::decimal;
use crate::text::lowered;
use crate::text::number;
use crate::text::opt_str;
use crate::text::opt_text;
use crate::text::parse_up_to;
use crate::text::quoted;
use crate::text::quoted_form;
use crate::text::same;
use crate::text::same_ignoring_ascii_case;
use crate::text::texts;
use crate::text::trim;
use crate::text::trimmed;
use crate::text::unsigned_value;

verus! {

/// Whether a selection names more than one marketplace.
pub open spec fn names_several(selector: Seq<char>) -> bool {
    selector.contains(',') || lowered(selector) == lowered("all"@)
}

fn several(selector: &str) -> (yes: bool)
    ensures
        yes == names_several(selector@),
{
    contains_char(selector, ',') || same_ignoring_ascii_case(selector, "all")
}

/// The marketplace in which an account is registered.
pub open spec fn registration_marketplace(selector: Option<Seq<char>>, known: Seq<Seq<char>>) -> Result<
    Seq<char>,
    AccountError<Seq<char>>,
> {
    match selector {
        None => Err(AccountError::NoRegistration),
        Some(cc) => if names_several(cc) {
            Err(AccountError::SeveralRegistrations)
        } else if !known.contains(cc) {
            Err(AccountError::UnknownRegistration(cc))
        } else {
            Ok(cc)
        },
    }
}

/// Settles the marketplace in which an account is registered: one has to be
/// selected, and no more.
pub fn check_marketplace(selector: Option<&str>, known: &Vec<String>) -> (result: Result<
    String,
    AccountError<String>,
>)
    ensures
        match result {
            Ok(cc) => registration_marketplace(opt_str(selector), texts(known@)) == Ok::<
                Seq<char>,
                AccountError<Seq<char>>,
            >(cc@),
            Err(e) => registration_marketplace(opt_str(selector), texts(known@)) == Err::<
                Seq<char>,
                AccountError<Seq<char>>,
            >(e@),
        },
{
    let cc = match selector {
        Some(cc) => cc,
        None => {
            return Err(AccountError::NoRegistration);
        },
    };
    if several(cc) {
        return Err(AccountError::SeveralRegistrations);
    }
    if !holds_text(known, cc) {
        return Err(AccountError::UnknownRegistration(String::from_str(cc)));
    }
    Ok(String::from_str(cc))
}

/// The marketplace that a page offers first: the one selected, where it is one.
pub fn offered_marketplace(selector: Option<&str>) -> (cc: Option<String>)
    ensures
        opt_text(cc) == match opt_str(selector) {
            Some(s) => if names_several(s) {
                None
            } else {
                Some(s)
            },
            None => None,
        },
{
    match selector {
        Some(s) => if several(s) {
            None
        } else {
            Some(String::from_str(s))
        },
        None => None,
    }
}

/// Checks that a username may be used to sign in.
pub fn check_username(wanted: bool, supported: bool) -> (result: Result<(), AccountError<String>>)
    ensures
        match result {
            Ok(_) => !wanted || supported,
            Err(e) => wanted && !supported && e@ == AccountError::<Seq<char>>::UsernameLogin,
        },
{
    if wanted && !supported {
        Err(AccountError::UsernameLogin)
    } else {
        Ok(())
    }
}

/// What the user is asked for, to sign in.
#[derive(Clone, Copy, Debug)]
pub struct Labels {
    /// The words for who signs in.
    pub id: &'static str,
    /// The words for the password.
    pub password: &'static str,
}

/// What the user is asked for, to sign in.
pub fn labels(audible_username: bool) -> (result: Labels)
    ensures
        result.id@ == (if audible_username {
            "Audible username"@
        } else {
            "Amazon email"@
        }),
        result.password@ == (if audible_username {
            "Audible password"@
        } else {
            "Amazon password"@
        }),
{
    if audible_username {
        Labels { id: "Audible username", password: "Audible password" }
    } else {
        Labels { id: "Amazon email", password: "Amazon password" }
    }
}

/// What an address reaches.
#[derive(Clone, Copy, Debug, PartialEq, Eq, Structural)]
pub enum Reach {
    /// Every address of the machine.
    Wildcard,
    /// The machine alone.
    Loopback,
    /// The network.
    Network,
}

/// What is said of a server for signing in, and the address to show as a code
/// for a camera, where one can be opened from elsewhere.
#[derive(Debug)]
pub struct ServerNotes {
    /// What is said.
    pub lines: Vec<String>,
    /// The address to show as a code.
    pub code: Option<String>,
}

/// The address of a page of the server.
pub open spec fn page_url(host: Seq<char>, port: int, path: Seq<char>) -> Seq<char> {
    "http://"@ + host + ":"@ + decimal(port) + path
}

/// What is said of a server for signing in.
pub open spec fn server_lines(
    ip: Seq<char>,
    host: Seq<char>,
    port: int,
    path: Seq<char>,
    reach: Reach,
) -> Seq<Seq<char>> {
    let url = page_url(host, port, path);
    seq!["Sign-in server listening on "@ + ip + ":"@ + decimal(port) + "."@] + (match reach {
        Reach::Wildcard => seq![
            "Bound to a wildcard address — open  http://<this-host-ip>:"@ + decimal(port) + path
                + "\n(pass --host <reachable-ip> instead of "@ + host
                + " to also print a QR code)\n"@,
        ],
        Reach::Loopback => seq![
            "Open this URL in a browser on THIS machine:\n\n  "@ + url + "\n"@,
            "On a headless box, forward the port first, then open the URL on your laptop:\n  ssh -L "@
                + decimal(port) + ":localhost:"@ + decimal(port) + " <user>@<this-host>\n"@,
        ],
        Reach::Network => seq![
            "⚠ A non-loopback bind briefly proxies an Amazon sign-in on your network — it shuts down after login or timeout."@,
            "Open this URL in a browser (or scan the QR with your phone):\n\n  "@ + url + "\n"@,
        ],
    })
}

/// What is said while a sign-in is waited for.
pub fn waiting_note(timeout: u64) -> (text: String)
    ensures
        text@ == "Waiting up to "@ + decimal(timeout as int)
            + "s for the sign-in to complete… (press Ctrl-C to abort)"@,
{
    cat3(
        "Waiting up to ",
        number(timeout).as_str(),
        "s for the sign-in to complete… (press Ctrl-C to abort)",
    )
}

fn url_of(host: &str, port: u16, path: &str) -> (url: String)
    ensures
        url@ == page_url(host@, port as int, path@),
{
    cat5("http://", host, ":", number(port as u64).as_str(), path)
}

/// Tells what is said of a server for signing in: how its page is reached, by
/// what its address reaches.
pub fn server_notes(ip: &str, host: &str, port: u16, path: &str, reach: Reach) -> (notes: ServerNotes)
    ensures
        texts(notes.lines@) == server_lines(ip@, host@, port as int, path@, reach),
        opt_text(notes.code) == (if reach is Network {
            Some(page_url(host@, port as int, path@))
        } else {
            None
        }),
{
    let shown = number(port as u64);
    let url = url_of(host, port, path);
    let mut lines: Vec<String> = Vec::new();
    push_text(&mut lines, cat5("Sign-in server listening on ", ip, ":", shown.as_str(), "."));
    let code = match reach {
        Reach::Wildcard => {
            let mut line = cat5(
                "Bound to a wildcard address — open  http://<this-host-ip>:",
                shown.as_str(),
                path,
                "\n(pass --host <reachable-ip> instead of ",
                host,
            );
            line.append(" to also print a QR code)\n");
            push_text(&mut lines, line);
            None
        },
        Reach::Loopback => {
            push_text(
                &mut lines,
                cat3("Open this URL in a browser on THIS machine:\n\n  ", url.as_str(), "\n"),
            );
            push_text(
                &mut lines,
                cat5(
                    "On a headless box, forward the port first, then open the URL on your laptop:\n  ssh -L ",
                    shown.as_str(),
                    ":localhost:",
                    shown.as_str(),
                    " <user>@<this-host>\n",
                ),
            );
            None
        },
        Reach::Network => {
            push_text(
                &mut lines,
                String::from_str(
                    "⚠ A non-loopback bind briefly proxies an Amazon sign-in on your network — it shuts down after login or timeout.",
                ),
            );
            push_text(
                &mut lines,
                cat3(
                    "Open this URL in a browser (or scan the QR with your phone):\n\n  ",
                    url.as_str(),
                    "\n",
                ),
            );
            Some(url)
        },
    };
    assert(texts(lines@) =~= server_lines(ip@, host@, port as int, path@, reach));
    ServerNotes { lines, code }
}

/// What `qrcode` draws for a text, two rows of squares a line; nothing where
/// the text is too long for a code.
pub uninterp spec fn code_text(text: Seq<char>) -> Option<Seq<char>>;

/// `qrcode::QrCode::new` on the bytes of a text, drawn by its renderer for
/// `Dense1x2` with a quiet zone: the drawing depends on the text alone and is
/// named `code_text`.
#[verifier::external_body]
pub(crate) fn draw_code(text: &str) -> (drawing: Option<String>)
    ensures
        opt_text(drawing) == code_text(text@),
{
    let code = qrcode::QrCode::new(text.as_bytes()).ok()?;
    Some(code.render::<qrcode::render::unicode::Dense1x2>().quiet_zone(true).build())
}

/// What is printed of a drawing; nothing where there is none.
pub open spec fn printed(drawing: Option<Seq<char>>) -> Option<Seq<char>> {
    match drawing {
        Some(d) => Some(d + "\n"@),
        None => None,
    }
}

/// Sets a drawing off from what follows it.
pub fn set_off(drawing: Option<String>) -> (text: Option<String>)
    ensures
        opt_text(text) == printed(opt_text(drawing)),
{
    match drawing {
        Some(d) => Some(cat2(d.as_str(), "\n")),
        None => None,
    }
}

/// Draws an address as a code for a camera.
pub fn qr_text(url: &str) -> (text: Option<String>)
    ensures
        opt_text(text) == printed(code_text(url@)),
{
    set_off(draw_code(url))
}

/// A device to which a code can be sent.
#[derive(Debug)]
pub struct MfaDevice {
    /// What it is called.
    pub label: String,
    /// By which way the code goes.
    pub method: String,
}

/// How a device is offered.
pub open spec fn device_text(device: MfaDevice, place: int) -> Seq<char> {
    "  "@ + decimal(place + 1) + ") "@ + (if device.label@.len() == 0 {
        device.method@
    } else {
        device.label@
    }) + " ["@ + device.method@ + "]"@
}

/// How devices are offered.
pub fn device_lines(devices: &Vec<MfaDevice>) -> (lines: Vec<String>)
    ensures
        texts(lines@) == devices@.map(|i: int, device: MfaDevice| device_text(device, i)),
{
    let mut lines: Vec<String> = Vec::new();
    let ghost want = devices@.map(|i: int, device: MfaDevice| device_text(device, i));
    let mut i: usize = 0;
    while i < devices.len()
        invariant
            i <= devices@.len(),
            want == devices@.map(|i: int, device: MfaDevice| device_text(device, i)),
            texts(lines@).len() == i,
            forall|k: int| 0 <= k < i ==> #[trigger] texts(lines@)[k] == want[k],
        decreases devices.len() - i,
    {
        let device = &devices[i];
        let label: &str = if device.label.as_str().is_empty() {
            device.method.as_str()
        } else {
            device.label.as_str()
        };
        let place: usize = i + 1;
        let mut line = cat4("  ", number(place as u64).as_str(), ") ", label);
        line.append(" [");
        line.append(device.method.as_str());
        line.append("]");
        push_text(&mut lines, line);
        i = i + 1;
    }
    assert(texts(lines@) =~= want);
    lines
}

/// The device that an answer names, by its place; nothing where it names none,
/// and the user is asked again.
pub open spec fn device_choice(answer: Seq<char>, count: int) -> Option<int> {
    match unsigned_value(trimmed(answer), usize::MAX as int) {
        Some(n) => if 1 <= n <= count {
            Some(n - 1)
        } else {
            None
        },
        None => None,
    }
}

/// Reads the answer to which device is meant.
pub fn mfa_choice(answer: &str, count: usize) -> (place: Option<usize>)
    ensures
        match place {
            Some(i) => i < count && device_choice(answer@, count as int) == Some(i as int),
            None => device_choice(answer@, count as int) is None,
        },
{
    match parse_up_to(trim(answer).as_str(), usize::MAX as u64) {
        Some(n) => if 1 <= n && n <= count as u64 {
            Some((n - 1) as usize)
        } else {
            None
        },
        None => None,
    }
}

/// Reads the answer to a challenge: without the space around it; an empty one
/// calls the sign-in off.
pub fn challenge_answer(line: &str) -> (answer: Option<String>)
    ensures
        opt_text(answer) == (if trimmed(line@).len() == 0 {
            None
        } else {
            Some(trimmed(line@))
        }),
{
    let answer = trim(line);
    if answer.as_str().is_empty() {
        None
    } else {
        Some(answer)
    }
}

/// Whether a terminal shows pictures in its text.
pub open spec fn shows_pictures(program: Option<Seq<char>>, terminal: Option<Seq<char>>) -> bool {
    program == Some("iTerm.app"@) || program == Some("WezTerm"@) || program == Some("ghostty"@)
        || terminal == Some("iTerm2"@)
}

/// Whether a terminal shows pictures in its text, by what the environment says
/// of it.
pub fn iterm2_inline_supported(program: Option<&str>, terminal: Option<&str>) -> (yes: bool)
    ensures
        yes == shows_pictures(opt_str(program), opt_str(terminal)),
{
    let by_program = match program {
        Some(name) => same(name, "iTerm.app") || same(name, "WezTerm") || same(name, "ghostty"),
        None => false,
    };
    let by_terminal = match terminal {
        Some(name) => same(name, "iTerm2"),
        None => false,
    };
    by_program || by_terminal
}

/// What `base64`'s standard engine writes for bytes.
pub uninterp spec fn base64_text(bytes: Seq<u8>) -> Seq<char>;

/// `base64::Engine::encode` of the standard engine: the text depends on the
/// bytes alone and is named `base64_text`.
#[verifier::external_body]
pub(crate) fn encode_base64(bytes: &[u8]) -> (text: String)
    ensures
        text@ == base64_text(bytes@),
{
    base64::Engine::encode(&base64::engine::general_purpose::STANDARD, bytes)
}

/// What makes a terminal show a picture, given how many bytes it has and how
/// they are written.
pub open spec fn picture_text(size: int, encoded: Seq<char>) -> Seq<char> {
    "\u{1b}]1337;File=inline=1;size="@ + decimal(size)
        + ";width=auto;height=auto;preserveAspectRatio=1:"@ + encoded + "\u{7}\n"@
}

/// Writes what makes a terminal show a picture.
pub fn picture(size: usize, encoded: &str) -> (text: String)
    ensures
        text@ == picture_text(size as int, encoded@),
{
    cat5(
        "\u{1b}]1337;File=inline=1;size=",
        number(size as u64).as_str(),
        ";width=auto;height=auto;preserveAspectRatio=1:",
        encoded,
        "\u{7}\n",
    )
}

/// Writes what makes a terminal show a picture in its text.
pub fn inline_image(image: &Vec<u8>) -> (text: String)
    ensures
        text@ == picture_text(image@.len() as int, base64_text(image@)),
{
    picture(image.len(), encode_base64(image.as_slice()).as_str())
}

/// What is said once an account was registered.
pub fn registered_note(name: &str, country_code: &str) -> (text: String)
    ensures
        text@ == "Logged in and registered account "@ + quoted_form(name@) + " ("@ + country_code@
            + ")."@,
{
    cat5(
        "Logged in and registered account ",
        quoted(name).as_str(),
        " (",
        country_code,
        ").",
    )
}

/// An account is registered in the one marketplace that is selected, where it is
/// known; none and several are refused, each for its own cause.
pub proof fn law_registrations_name_one_marketplace(cc: Seq<char>, known: Seq<Seq<char>>)
    ensures
        registration_marketplace(Some(cc), known) == Ok::<Seq<char>, AccountError<Seq<char>>>(cc)
            <==> known.contains(cc) && !cc.contains(',') && lowered(cc) != lowered("all"@),
        registration_marketplace(Some(cc), known) matches Ok(found) ==> found == cc,
        registration_marketplace(None, known) == Err::<Seq<char>, AccountError<Seq<char>>>(
            AccountError::NoRegistration,
        ),
        cc.contains(',') || lowered(cc) == lowered("all"@) ==> registration_marketplace(
            Some(cc),
            known,
        ) == Err::<Seq<char>, AccountError<Seq<char>>>(AccountError::SeveralRegistrations),
{
}

/// A device is chosen by its number as it is offered, from one on; any other answer
/// chooses none.
pub proof fn law_devices_are_chosen_by_number(answer: Seq<char>, n: int, count: int)
    requires
        unsigned_value(trimmed(answer), usize::MAX as int) == Some(n),
    ensures
        1 <= n <= count ==> device_choice(answer, count) == Some(n - 1),
        n < 1 || n > count ==> device_choice(answer, count) is None,
{
}

/// A device is offered by the number that chooses it, and by its name where it has
/// one.
pub proof fn law_devices_are_offered_by_number(device: MfaDevice, place: int)
    ensures
        device.label@.len() > 0 ==> device_text(device, place) == "  "@ + decimal(place + 1) + ") "@
            + device.label@ + " ["@ + device.method@ + "]"@,
        device.label@.len() == 0 ==> device_text(device, place) == "  "@ + decimal(place + 1)
            + ") "@ + device.method@ + " ["@ + device.method@ + "]"@,
{
}

/// The address of the server is told where it can be opened: its port and its path
/// stand in it, and a server that the network reaches comes with a warning.
pub proof fn law_sign_in_addresses_are_told(
    ip: Seq<char>,
    host: Seq<char>,
    port: int,
    path: Seq<char>,
)
    ensures
        page_url(host, port, path) == "http://"@ + host + ":"@ + decimal(port) + path,
        server_lines(ip, host, port, path, Reach::Loopback).len() == 3,
        server_lines(ip, host, port, path, Reach::Loopback)[1]
            == "Open this URL in a browser on THIS machine:\n\n  "@ + page_url(host, port, path)
            + "\n"@,
        server_lines(ip, host, port, path, Reach::Network).len() == 3,
        server_lines(ip, host, port, path, Reach::Network)[2]
            == "Open this URL in a browser (or scan the QR with your phone):\n\n  "@ + page_url(
            host,
            port,
            path,
        ) + "\n"@,
        server_lines(ip, host, port, path, Reach::Wildcard).len() == 2,
{
}

} // verus!
