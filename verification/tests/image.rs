use workload_cache::image::{
    credentials, BytecodeImage, ImageError, ImagePullPolicy, ImageSubCommand, PullBytecodeArgs,
};

fn args(policy: &str, auth: Option<&str>) -> PullBytecodeArgs {
    PullBytecodeArgs {
        image_url: "quay.io/example/prog:latest".to_string(),
        registry_auth: auth.map(|a| a.to_string()),
        pull_policy: policy.to_string(),
    }
}

#[test]
fn pull_request_carries_decoded_credentials() {
    let image = ImageSubCommand::Pull(args("Always", Some("dXNlcjpwYXNz"))).execute().unwrap();
    assert_eq!(image.url, "quay.io/example/prog:latest");
    assert_eq!(image.image_pull_policy, 0);
    assert_eq!(image.username, Some("user".to_string()));
    assert_eq!(image.password, Some("pass".to_string()));
}

#[test]
fn credentials_split_at_the_first_colon() {
    let image = BytecodeImage::try_from(&args("Never", Some("dXNlcjpwYTpzcw=="))).unwrap();
    assert_eq!(image.image_pull_policy, 2);
    assert_eq!(image.username, Some("user".to_string()));
    assert_eq!(image.password, Some("pa:ss".to_string()));
    assert_eq!(credentials(b":x".to_vec()), Ok((String::new(), "x".to_string())));
    assert_eq!(credentials(b"x:".to_vec()), Ok(("x".to_string(), String::new())));
}

#[test]
fn pull_request_without_credentials_has_empty_ones() {
    let image = ImageSubCommand::Pull(args("IfNotPresent", None)).execute().unwrap();
    assert_eq!(image.image_pull_policy, 1);
    assert_eq!(image.username, Some(String::new()));
    assert_eq!(image.password, Some(String::new()));
}

#[test]
fn unknown_pull_policy_is_refused_first() {
    let r = ImageSubCommand::Pull(args("Sometimes", Some("!!!"))).execute();
    assert_eq!(r.err(), Some(ImageError::InvalidPullPolicy));
    assert_eq!(ImagePullPolicy::parse("always"), None);
    assert_eq!(ImagePullPolicy::parse("Never"), Some(ImagePullPolicy::Never));
}

#[test]
fn credentials_that_are_not_base64_are_refused() {
    let r = ImageSubCommand::Pull(args("Always", Some("not base64!"))).execute();
    assert_eq!(r.err(), Some(ImageError::InvalidBase64));
}

#[test]
fn credentials_that_are_not_text_are_refused() {
    let r = ImageSubCommand::Pull(args("Always", Some("//4="))).execute();
    assert_eq!(r.err(), Some(ImageError::InvalidUtf8));
    assert_eq!(credentials(vec![0xff, 0xfe]), Err(ImageError::InvalidUtf8));
}

#[test]
fn credentials_without_a_colon_are_refused() {
    let r = ImageSubCommand::Pull(args("Always", Some("bm9jb2xvbg=="))).execute();
    assert_eq!(r.err(), Some(ImageError::MissingSeparator));
    assert_eq!(credentials(Vec::new()), Err(ImageError::MissingSeparator));
}
