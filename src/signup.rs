//! The decisions of the interactive `SIGNUP` command, as a state machine fed one answer at a
//! time.  Reading the answers and submitting the request are left to the caller.

use vstd::prelude::*;
use crate::error::{CommandError, IoError};
use crate::session::texts;
use crate::text::{alphabetic, is_alphabetic, is_numeric, numeric, trim_end, trim_end_of, upper_of, uppercase};

verus! {

/// Why a password is too weak, if it is: it needs 8 characters, among them an alphabetic one and a
/// numeric one.
pub open spec fn password_problem(p: Seq<char>) -> Option<Seq<char>> {
    if p.len() < 8 {
        Some("Must be at least 8 characters long"@)
    } else if !(exists|i: int| 0 <= i < p.len() && alphabetic(#[trigger] p[i])) || !(exists|i: int|
        0 <= i < p.len() && numeric(#[trigger] p[i])) {
        Some("Must contain letters and numbers"@)
    } else {
        None
    }
}

/// Checks if a password is complex enough, and says why not when it is not.
pub fn validate_password_complexity(password: &str) -> (r: Result<(), &'static str>)
    ensures
        match password_problem(password@) {
            None => r is Ok,
            Some(m) => r matches Err(e) && e@ == m,
        },
{
    let n = password.unicode_len();
    if n < 8 {
        return Err("Must be at least 8 characters long");
    }
    let mut alpha = false;
    let mut num = false;
    let mut i: usize = 0;
    while i < n
        invariant
            n == password@.len(),
            i <= n,
            alpha == exists|k: int| 0 <= k < i && alphabetic(#[trigger] password@[k]),
            num == exists|k: int| 0 <= k < i && numeric(#[trigger] password@[k]),
        decreases n - i,
    {
        let ch = password.get_char(i);
        if is_alphabetic(ch) {
            alpha = true;
        }
        if is_numeric(ch) {
            num = true;
        }
        i = i + 1;
    }
    if !alpha || !num {
        return Err("Must contain letters and numbers");
    }
    Ok(())
}

/// The truth value that an uppercased boolean literal spells, if any.
pub open spec fn boolean_literal(u: Seq<char>) -> Option<bool> {
    if u == "TRUE"@ || u == "YES"@ || u == "Y"@ {
        Some(true)
    } else if u == "FALSE"@ || u == "NO"@ || u == "N"@ {
        Some(false)
    } else {
        None
    }
}

/// Parses a boolean literal (`true`, `yes`, `y`, `false`, `no`, `n`) without regard to case.
pub fn parse_boolean(s: &str) -> (r: Result<bool, String>)
    ensures
        match boolean_literal(upper_of(s@)) {
            Some(b) => r == Result::<bool, String>::Ok(b),
            None => r matches Err(m) && m@ == "Invalid boolean literal "@ + s@,
        },
{
    let u = uppercase(s);
    let us = u.as_str();
    if crate::files::str_eq(us, "TRUE") || crate::files::str_eq(us, "YES") || crate::files::str_eq(us, "Y") {
        Ok(true)
    } else if crate::files::str_eq(us, "FALSE") || crate::files::str_eq(us, "NO") || crate::files::str_eq(us, "N") {
        Ok(false)
    } else {
        let mut m = String::from_str("Invalid boolean literal ");
        m.append(s);
        Err(m)
    }
}

/// The answer to a yes/no question: `default` for an empty line, else the boolean literal
/// that the line spells once trailing blanks are dropped.
pub open spec fn yes_no_answer(line: Seq<char>, default: bool) -> Option<bool> {
    if line.len() == 0 {
        Some(default)
    } else {
        boolean_literal(upper_of(trim_end_of(line)))
    }
}

/// Reads the answer to a yes/no question; `None` asks for the question again.
pub fn read_bool_answer(line: &str, default: bool) -> (r: Option<bool>)
    ensures
        r == yes_no_answer(line@, default),
{
    if line.unicode_len() == 0 {
        return Some(default);
    }
    match parse_boolean(trim_end(line)) {
        Ok(b) => Some(b),
        Err(_) => None,
    }
}

/// The account that a signup asks the service to create.
#[derive(Debug)]
pub struct SignupRequest {
    pub username: String,
    pub password: String,
    pub email: String,
    pub promotional_email: bool,
}

/// The question that a signup waits an answer to, or how it ended.
#[derive(Clone, Copy, Debug, PartialEq, Eq, Structural)]
pub enum SignupStep {
    Username,
    Password,
    RetypePassword,
    Email,
    PromotionalEmail,
    Confirm,
    /// The answers were confirmed: the request is to be submitted.
    Submit,
    /// The answers were declined: nothing is submitted, and the command still succeeds.
    Declined,
}

/// The answers gathered so far and the question that comes next.
#[derive(Debug)]
pub struct SignupState {
    pub step: SignupStep,
    pub username: String,
    pub password: String,
    pub email: String,
    pub promotional_email: bool,
}

/// The lines that introduce the questions on email.
pub open spec fn email_intro() -> Seq<Seq<char>> {
    seq![
        ""@,
        "    We also need your email address to activate your account."@,
        "    Your email address will be kept on file in case we have to notify you of important service issues and will never be made public.  You will be asked if you want to receive promotional email messages (like new release announcements) or not, and your selection here will have no adverse impact in the service you receive."@,
        ""@,
    ]
}

/// The summary shown before the final confirmation.
pub open spec fn review_lines(username: Seq<char>, email: Seq<char>, promotional: bool) -> Seq<Seq<char>> {
    seq![
        ""@,
        "    We are ready to go. Please review your answers before proceeding."@,
        ""@,
        "Username: "@ + username,
        "Email address: "@ + email,
        "Promotional email: "@ + if promotional { "yes"@ } else { "no"@ },
    ]
}

/// The lines that open a signup.
pub open spec fn signup_intro() -> Seq<Seq<char>> {
    seq![
        ""@,
        "    Let's gather some information to create your cloud account."@,
        "    You can abort this process at any time by hitting Ctrl+C and you will be given a chance to review your inputs before creating the account."@,
        ""@,
    ]
}

/// The lines that close a signup that the service accepted.
pub open spec fn signup_done() -> Seq<Seq<char>> {
    seq![
        ""@,
        "    Your account has been created and is pending activation."@,
        "    Check your email now and look for a message from the EndBASIC Service.  Follow the instructions in it to activate your account.  Make sure to check your spam folder."@,
        "    Once your account is activated, come back here and use LOGIN to get started!"@,
        "    If you encounter any problems, please contact support@endbasic.dev."@,
        ""@,
    ]
}

/// The prompt of each question, and whether its answer is secret.
pub open spec fn prompt_of(step: SignupStep) -> Option<(Seq<char>, bool)> {
    match step {
        SignupStep::Username => Some(("Username: "@, false)),
        SignupStep::Password => Some(("Password: "@, true)),
        SignupStep::RetypePassword => Some(("Retype password: "@, true)),
        SignupStep::Email => Some(("Email address: "@, false)),
        SignupStep::PromotionalEmail => Some(("Receive promotional email (y/N)? "@, false)),
        SignupStep::Confirm => Some(("Continue (y/N)? "@, false)),
        SignupStep::Submit => None,
        SignupStep::Declined => None,
    }
}

/// The `SIGNUP` command.
pub struct SignupCommand {}

impl SignupCommand {
    pub fn new() -> (r: SignupCommand) {
        SignupCommand {}
    }

    /// Starts a signup: returns the state that asks for the username and the lines to show
    /// first.
    pub fn start(&self) -> (r: (SignupState, Vec<String>))
        ensures
            r.0.step == SignupStep::Username,
            r.0.username@.len() == 0 && r.0.password@.len() == 0 && r.0.email@.len() == 0,
            !r.0.promotional_email,
            texts(r.1@) == signup_intro(),
    {
        let mut lines: Vec<String> = Vec::new();
        lines.push(String::from_str(""));
        lines.push(String::from_str("    Let's gather some information to create your cloud account."));
        lines.push(String::from_str("    You can abort this process at any time by hitting Ctrl+C and you will be given a chance to review your inputs before creating the account."));
        lines.push(String::from_str(""));
        assert(texts(lines@) =~= signup_intro());
        let st = SignupState {
            step: SignupStep::Username,
            username: String::new(),
            password: String::new(),
            email: String::new(),
            promotional_email: false,
        };
        (st, lines)
    }

    /// The prompt of the question that `state` waits an answer to, and whether the answer is
    /// secret; `None` once the signup has ended.
    pub fn prompt(&self, state: &SignupState) -> (r: Option<(&'static str, bool)>)
        ensures
            match r {
                None => state.step == SignupStep::Submit || state.step == SignupStep::Declined,
                Some((text, secret)) => prompt_of(state.step) == Some((text@, secret)),
            },
    {
        match state.step {
            SignupStep::Username => Some(("Username: ", false)),
            SignupStep::Password => Some(("Password: ", true)),
            SignupStep::RetypePassword => Some(("Retype password: ", true)),
            SignupStep::Email => Some(("Email address: ", false)),
            SignupStep::PromotionalEmail => Some(("Receive promotional email (y/N)? ", false)),
            SignupStep::Confirm => Some(("Continue (y/N)? ", false)),
            SignupStep::Submit => None,
            SignupStep::Declined => None,
        }
    }

    /// What `answer` does with the line `input` in the state `pre`.
    pub open spec fn answer_spec(pre: SignupState, post: SignupState, input: Seq<char>, output: Seq<Seq<char>>) -> bool {
        let same_answers = post.username@ == pre.username@ && post.password@ == pre.password@
            && post.email@ == pre.email@ && post.promotional_email == pre.promotional_email;
        match pre.step {
            SignupStep::Username => post.step == SignupStep::Password && post.username@ == input
                && post.password@ == pre.password@ && post.email@ == pre.email@ && post.promotional_email
                == pre.promotional_email && output.len() == 0,
            SignupStep::Password => match password_problem(input) {
                Some(m) => post.step == SignupStep::Password && same_answers && output == seq![
                    "Invalid password: "@ + m + "; try again."@,
                ],
                None => post.step == SignupStep::RetypePassword && post.password@ == input
                    && post.username@ == pre.username@ && post.email@ == pre.email@
                    && post.promotional_email == pre.promotional_email && output.len() == 0,
            },
            SignupStep::RetypePassword => if input == pre.password@ {
                post.step == SignupStep::Email && same_answers && output == email_intro()
            } else {
                post.step == SignupStep::Password && same_answers && output == seq![
                    "Passwords do not match; try again."@,
                ]
            },
            SignupStep::Email => post.step == SignupStep::PromotionalEmail && post.email@ == input
                && post.username@ == pre.username@ && post.password@ == pre.password@
                && post.promotional_email == pre.promotional_email && output.len() == 0,
            SignupStep::PromotionalEmail => match yes_no_answer(input, false) {
                None => post.step == SignupStep::PromotionalEmail && same_answers && output == seq![
                    "Invalid input; try again."@,
                ],
                Some(b) => post.step == SignupStep::Confirm && post.promotional_email == b
                    && post.username@ == pre.username@ && post.password@ == pre.password@
                    && post.email@ == pre.email@ && output == review_lines(pre.username@, pre.email@, b),
            },
            SignupStep::Confirm => match yes_no_answer(input, false) {
                None => post.step == SignupStep::Confirm && same_answers && output == seq![
                    "Invalid input; try again."@,
                ],
                Some(true) => post.step == SignupStep::Submit && same_answers && output.len() == 0,
                Some(false) => post.step == SignupStep::Declined && same_answers && output.len() == 0,
            },
            _ => post.step == pre.step && same_answers && output.len() == 0,
        }
    }

    /// Takes the answer `input` to the question of `state`: records it or explains why it is
    /// refused and asks again.  Returns the next state and the lines to show.
    pub fn answer(&self, state: SignupState, input: &str) -> (r: (SignupState, Vec<String>))
        ensures
            SignupCommand::answer_spec(state, r.0, input@, texts(r.1@)),
    {
        let mut st = state;
        let mut out: Vec<String> = Vec::new();
        match st.step {
            SignupStep::Username => {
                st.username = String::from_str(input);
                st.step = SignupStep::Password;
            },
            SignupStep::Password => match validate_password_complexity(input) {
                Err(m) => {
                    let mut line = String::from_str("Invalid password: ");
                    line.append(m);
                    line.append("; try again.");
                    out.push(line);
                },
                Ok(()) => {
                    st.password = String::from_str(input);
                    st.step = SignupStep::RetypePassword;
                },
            },
            SignupStep::RetypePassword => {
                if crate::files::str_eq(input, st.password.as_str()) {
                    out.push(String::from_str(""));
                    out.push(String::from_str("    We also need your email address to activate your account."));
                    out.push(String::from_str("    Your email address will be kept on file in case we have to notify you of important service issues and will never be made public.  You will be asked if you want to receive promotional email messages (like new release announcements) or not, and your selection here will have no adverse impact in the service you receive."));
                    out.push(String::from_str(""));
                    st.step = SignupStep::Email;
                } else {
                    out.push(String::from_str("Passwords do not match; try again."));
                    st.step = SignupStep::Password;
                }
            },
            SignupStep::Email => {
                st.email = String::from_str(input);
                st.step = SignupStep::PromotionalEmail;
            },
            SignupStep::PromotionalEmail => match read_bool_answer(input, false) {
                None => {
                    out.push(String::from_str("Invalid input; try again."));
                },
                Some(b) => {
                    st.promotional_email = b;
                    st.step = SignupStep::Confirm;
                    out.push(String::from_str(""));
                    out.push(String::from_str("    We are ready to go. Please review your answers before proceeding."));
                    out.push(String::from_str(""));
                    let mut l1 = String::from_str("Username: ");
                    l1.append(st.username.as_str());
                    out.push(l1);
                    let mut l2 = String::from_str("Email address: ");
                    l2.append(st.email.as_str());
                    out.push(l2);
                    let mut l3 = String::from_str("Promotional email: ");
                    l3.append(if b { "yes" } else { "no" });
                    out.push(l3);
                },
            },
            SignupStep::Confirm => match read_bool_answer(input, false) {
                None => {
                    out.push(String::from_str("Invalid input; try again."));
                },
                Some(true) => {
                    st.step = SignupStep::Submit;
                },
                Some(false) => {
                    st.step = SignupStep::Declined;
                },
            },
            _ => {},
        }
        proof {
            let o = texts(out@);
            if o.len() == 1 {
                assert(o =~= seq![out@[0]@]);
            } else if o.len() == 4 {
                assert(o =~= email_intro());
            } else if o.len() == 6 {
                assert(o =~= review_lines(state.username@, state.email@, st.promotional_email));
            }
        }
        (st, out)
    }

    /// The request that a confirmed signup submits.
    pub fn request(&self, state: SignupState) -> (r: SignupRequest)
        ensures
            r.username@ == state.username@,
            r.password@ == state.password@,
            r.email@ == state.email@,
            r.promotional_email == state.promotional_email,
    {
        SignupRequest {
            username: state.username,
            password: state.password,
            email: state.email,
            promotional_email: state.promotional_email,
        }
    }

    /// Acts on the service's answer to the request: a failure is passed through, a success
    /// gives the closing lines.
    pub fn finish(&self, result: Result<(), IoError>) -> (r: Result<Vec<String>, CommandError>)
        ensures
            result is Ok <==> r is Ok,
            result is Err ==> (r matches Err(CommandError::Io(e)) && e == result->Err_0),
            r matches Ok(v) ==> texts(v@) == signup_done(),
    {
        match result {
            Err(e) => Err(CommandError::Io(e)),
            Ok(()) => {
                let mut v: Vec<String> = Vec::new();
                v.push(String::from_str(""));
                v.push(String::from_str("    Your account has been created and is pending activation."));
                v.push(String::from_str("    Check your email now and look for a message from the EndBASIC Service.  Follow the instructions in it to activate your account.  Make sure to check your spam folder."));
                v.push(String::from_str("    Once your account is activated, come back here and use LOGIN to get started!"));
                v.push(String::from_str("    If you encounter any problems, please contact support@endbasic.dev."));
                v.push(String::from_str(""));
                assert(texts(v@) =~= signup_done());
                Ok(v)
            },
        }
    }
}

} // verus!
