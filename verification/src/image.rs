//! The request to pull a bytecode image, built from the command line's
//! arguments: the pull policy by name, and the registry credentials out of
//! their base64 form `user:password`.

use vstd::prelude::*;
use vstd::string::StrSliceExecFns;
use vstd::utf8::{decode_utf8, valid_utf8};
use base64::Engine;
use crate::workload::text_is;

verus! {

#[verifier::external_type_specification]
#[verifier::external_body]
pub struct ExDecodeError(base64::DecodeError);

#[verifier::external_type_specification]
#[verifier::external_body]
pub struct ExFromUtf8Error(std::string::FromUtf8Error);

/// What the standard base64 alphabet with canonical padding makes of a
/// text: the bytes, or nothing where the text is no such encoding.
pub uninterp spec fn base64_standard(input: Seq<char>) -> Option<Seq<u8>>;

/// `Engine::decode` on `general_purpose::STANDARD`: the decoded bytes of
/// the text, or the crate's error where it is not valid base64.
#[verifier::external_body]
fn decode_standard(input: &str) -> (r: Result<Vec<u8>, base64::DecodeError>)
    ensures
        match r {
            Ok(bytes) => base64_standard(input@) == Some(bytes@),
            Err(_) => base64_standard(input@).is_none(),
        },
{
    base64::engine::general_purpose::STANDARD.decode(input)
}

/// `String::from_utf8`: the text that the bytes encode, or an error where
/// they are not valid UTF-8.
#[verifier::external_body]
fn text_from_utf8(bytes: Vec<u8>) -> (r: Result<String, std::string::FromUtf8Error>)
    ensures
        match r {
            Ok(s) => valid_utf8(bytes@) && s@ == decode_utf8(bytes@),
            Err(_) => !valid_utf8(bytes@),
        },
{
    String::from_utf8(bytes)
}

/// When an image is pulled.
#[derive(Clone, Copy, Debug, PartialEq, Eq, Structural)]
pub enum ImagePullPolicy {
    Always,
    IfNotPresent,
    Never,
}

impl ImagePullPolicy {
    pub open spec fn named(name: Seq<char>) -> Option<ImagePullPolicy> {
        if name == "Always"@ {
            Some(ImagePullPolicy::Always)
        } else if name == "IfNotPresent"@ {
            Some(ImagePullPolicy::IfNotPresent)
        } else if name == "Never"@ {
            Some(ImagePullPolicy::Never)
        } else {
            None
        }
    }

    /// The number that stands for the policy in a request.
    pub open spec fn code(self) -> i32 {
        match self {
            ImagePullPolicy::Always => 0,
            ImagePullPolicy::IfNotPresent => 1,
            ImagePullPolicy::Never => 2,
        }
    }

    pub fn parse(name: &str) -> (r: Option<ImagePullPolicy>)
        ensures
            r == ImagePullPolicy::named(name@),
    {
        if text_is(name, "Always") {
            Some(ImagePullPolicy::Always)
        } else if text_is(name, "IfNotPresent") {
            Some(ImagePullPolicy::IfNotPresent)
        } else if text_is(name, "Never") {
            Some(ImagePullPolicy::Never)
        } else {
            None
        }
    }

    pub fn number(self) -> (n: i32)
        ensures
            n == self.code(),
    {
        match self {
            ImagePullPolicy::Always => 0,
            ImagePullPolicy::IfNotPresent => 1,
            ImagePullPolicy::Never => 2,
        }
    }
}

/// Why no request could be built.
#[derive(Clone, Copy, Debug, PartialEq, Eq, Structural)]
pub enum ImageError {
    /// The pull policy is none of the three names.
    InvalidPullPolicy,
    /// The registry credentials are not valid base64.
    InvalidBase64,
    /// The decoded credentials are not valid UTF-8.
    InvalidUtf8,
    /// The decoded credentials hold no colon.
    MissingSeparator,
}

/// The place of the first colon at or after `from`; the length where there
/// is none.
pub open spec fn first_colon(s: Seq<char>, from: int) -> int
    decreases s.len() - from,
{
    if from < 0 || from >= s.len() {
        s.len() as int
    } else if s[from] == ':' {
        from
    } else {
        first_colon(s, from + 1)
    }
}

/// User name and password out of the decoded credentials: what stands
/// before the first colon, and what stands after it.
pub open spec fn credentials_of(decoded: Seq<u8>) -> Result<(Seq<char>, Seq<char>), ImageError> {
    if !valid_utf8(decoded) {
        Err(ImageError::InvalidUtf8)
    } else {
        let text = decode_utf8(decoded);
        let at = first_colon(text, 0);
        if at >= text.len() {
            Err(ImageError::MissingSeparator)
        } else {
            Ok((text.subrange(0, at), text.subrange(at + 1, text.len() as int)))
        }
    }
}

pub struct PullBytecodeArgsView {
    pub image_url: Seq<char>,
    pub registry_auth: Option<Seq<char>>,
    pub pull_policy: Seq<char>,
}

pub struct PullBytecodeArgs {
    pub image_url: String,
    pub registry_auth: Option<String>,
    pub pull_policy: String,
}

impl View for PullBytecodeArgs {
    type V = PullBytecodeArgsView;

    open spec fn view(&self) -> PullBytecodeArgsView {
        PullBytecodeArgsView {
            image_url: self.image_url@,
            registry_auth: match self.registry_auth {
                Some(a) => Some(a@),
                None => None,
            },
            pull_policy: self.pull_policy@,
        }
    }
}

pub struct BytecodeImageView {
    pub url: Seq<char>,
    pub image_pull_policy: i32,
    pub username: Option<Seq<char>>,
    pub password: Option<Seq<char>>,
}

#[derive(Debug)]
pub struct BytecodeImage {
    pub url: String,
    pub image_pull_policy: i32,
    pub username: Option<String>,
    pub password: Option<String>,
}

impl View for BytecodeImage {
    type V = BytecodeImageView;

    open spec fn view(&self) -> BytecodeImageView {
        BytecodeImageView {
            url: self.url@,
            image_pull_policy: self.image_pull_policy,
            username: match self.username {
                Some(a) => Some(a@),
                None => None,
            },
            password: match self.password {
                Some(a) => Some(a@),
                None => None,
            },
        }
    }
}

/// The request that the arguments ask for, given what the credentials
/// decode to. The pull policy is looked at first.
pub open spec fn image_of(args: PullBytecodeArgsView, decoded: Option<Seq<u8>>) -> Result<
    BytecodeImageView,
    ImageError,
> {
    match ImagePullPolicy::named(args.pull_policy) {
        None => Err(ImageError::InvalidPullPolicy),
        Some(policy) => match args.registry_auth {
            None => Ok(
                BytecodeImageView {
                    url: args.image_url,
                    image_pull_policy: policy.code(),
                    username: Some(Seq::empty()),
                    password: Some(Seq::empty()),
                },
            ),
            Some(_) => match decoded {
                None => Err(ImageError::InvalidBase64),
                Some(bytes) => match credentials_of(bytes) {
                    Err(e) => Err(e),
                    Ok(pair) => Ok(
                        BytecodeImageView {
                            url: args.image_url,
                            image_pull_policy: policy.code(),
                            username: Some(pair.0),
                            password: Some(pair.1),
                        },
                    ),
                },
            },
        },
    }
}

pub open spec fn image_result_view(r: Result<BytecodeImage, ImageError>) -> Result<
    BytecodeImageView,
    ImageError,
> {
    match r {
        Ok(i) => Ok(i@),
        Err(e) => Err(e),
    }
}

/// Splits decoded credentials at their first colon.
pub fn credentials(decoded: Vec<u8>) -> (r: Result<(String, String), ImageError>)
    ensures
        match r {
            Ok(pair) => credentials_of(decoded@) == Ok::<(Seq<char>, Seq<char>), ImageError>(
                (pair.0@, pair.1@),
            ),
            Err(e) => credentials_of(decoded@) == Err::<(Seq<char>, Seq<char>), ImageError>(e),
        },
{
    let ghost bytes = decoded@;
    match text_from_utf8(decoded) {
        Err(_) => Err(ImageError::InvalidUtf8),
        Ok(text) => {
            let s = text.as_str();
            let n = s.unicode_len();
            let mut i: usize = 0;
            while i < n
                invariant
                    i <= n,
                    n == s@.len(),
                    valid_utf8(bytes),
                    s@ == decode_utf8(bytes),
                    bytes == decoded@,
                    first_colon(s@, i as int) == first_colon(s@, 0),
                decreases n - i,
            {
                if s.get_char(i) == ':' {
                    let user = s.substring_char(0, i).to_owned();
                    let password = s.substring_char(i + 1, n).to_owned();
                    return Ok((user, password));
                }
                i += 1;
            }
            Err(ImageError::MissingSeparator)
        },
    }
}

impl BytecodeImage {
    /// The request that the arguments ask for.
    pub fn try_from(value: &PullBytecodeArgs) -> (r: Result<BytecodeImage, ImageError>)
        ensures
            image_result_view(r) == image_of(
                value@,
                match value@.registry_auth {
                    Some(a) => base64_standard(a),
                    None => None,
                },
            ),
    {
        let policy = match ImagePullPolicy::parse(value.pull_policy.as_str()) {
            Some(p) => p,
            None => {
                return Err(ImageError::InvalidPullPolicy);
            },
        };
        let (username, password) = match &value.registry_auth {
            Some(a) => {
                let decoded = match decode_standard(a.as_str()) {
                    Ok(bytes) => bytes,
                    Err(_) => {
                        return Err(ImageError::InvalidBase64);
                    },
                };
                match credentials(decoded) {
                    Ok(pair) => pair,
                    Err(e) => {
                        return Err(e);
                    },
                }
            },
            None => (String::new(), String::new()),
        };
        Ok(
            BytecodeImage {
                url: value.image_url.clone(),
                image_pull_policy: policy.number(),
                username: Some(username),
                password: Some(password),
            },
        )
    }
}

pub enum ImageSubCommand {
    Pull(PullBytecodeArgs),
}

impl ImageSubCommand {
    /// The request that the subcommand sends; sending it is the caller's
    /// part.
    pub fn execute(&self) -> (r: Result<BytecodeImage, ImageError>)
        ensures
            match self {
                ImageSubCommand::Pull(args) => image_result_view(r) == image_of(
                    args@,
                    match args@.registry_auth {
                        Some(a) => base64_standard(a),
                        None => None,
                    },
                ),
            },
    {
        match self {
            ImageSubCommand::Pull(args) => execute_pull(args),
        }
    }
}

/// The request of a pull.
pub fn execute_pull(args: &PullBytecodeArgs) -> (r: Result<BytecodeImage, ImageError>)
    ensures
        image_result_view(r) == image_of(
            args@,
            match args@.registry_auth {
                Some(a) => base64_standard(a),
                None => None,
            },
        ),
{
    BytecodeImage::try_from(args)
}

} // verus!
