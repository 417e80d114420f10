use kiro_rs::endpoint::cli::{CliEndpoint, AMAZON_Q_CLI_ENDPOINT_NAME, CLI_ENDPOINT_NAME};
use kiro_rs::endpoint::ide::{
    IdeEndpoint, AMAZON_Q_ENDPOINT_NAME, CODEWHISPERER_ENDPOINT_NAME, IDE_ENDPOINT_NAME,
    RUNTIME_ENDPOINT_NAME,
};
use kiro_rs::endpoint::{
    normalize_api_region, Config, KiroCredentials, KiroEndpoint, RequestContext,
};
use kiro_rs::endpoint::refusal::{
    default_is_account_suspended, default_is_account_throttled, default_is_bearer_token_invalid,
    default_is_client_validation_error, default_is_gateway_timeout,
    default_is_monthly_request_limit,
};
use kiro_rs::kiro_version::LatestVersion;

fn some_config() -> Config {
    Config {
        region: "us-east-1".to_string(),
        api_region: None,
        agent_mode: "spec".to_string(),
        kiro_version: "0.9.2".to_string(),
        system_version: "darwin#24.6.0".to_string(),
        node_version: "22.21.1".to_string(),
    }
}

fn no_credentials() -> KiroCredentials {
    KiroCredentials {
        region: None,
        api_region: None,
        token_type: None,
        profile_arn: None,
        streaming_profile_arn: None,
    }
}

fn header<'a>(headers: &'a [(String, String)], name: &str) -> Option<&'a str> {
    headers
        .iter()
        .find(|(n, _)| n.eq_ignore_ascii_case(name))
        .map(|(_, v)| v.as_str())
}

#[test]
fn normalizes_supported_api_regions() {
    assert_eq!(normalize_api_region("us-east-1"), "us-east-1");
    assert_eq!(normalize_api_region("ap-southeast-1"), "us-east-1");
    assert_eq!(normalize_api_region("eu-west-1"), "eu-central-1");
}

#[test]
fn endpoint_fallbacks_form_the_expected_ring() {
    let codewhisperer = IdeEndpoint::codewhisperer();
    let amazon_q = IdeEndpoint::amazon_q();
    let runtime = IdeEndpoint::runtime();
    assert_eq!(codewhisperer.fallback_name(), Some(RUNTIME_ENDPOINT_NAME));
    assert_eq!(amazon_q.fallback_name(), Some(RUNTIME_ENDPOINT_NAME));
    assert_eq!(runtime.fallback_name(), Some(CODEWHISPERER_ENDPOINT_NAME));
    assert!(codewhisperer.requires_codewhisperer_model_id());
    assert!(!runtime.requires_codewhisperer_model_id());
}

#[test]
fn endpoint_urls_follow_us_and_eu_routing_rules() {
    let config = some_config();
    let latest = LatestVersion::unknown();
    let credentials = no_credentials();
    let ctx = RequestContext {
        credentials: &credentials,
        token: "token",
        machine_id: "machine",
        config: &config,
        latest_version: &latest,
    };
    assert_eq!(
        IdeEndpoint::codewhisperer().api_url(&ctx),
        "https://codewhisperer.us-east-1.amazonaws.com/generateAssistantResponse"
    );
    assert_eq!(
        IdeEndpoint::amazon_q().api_url(&ctx),
        "https://q.us-east-1.amazonaws.com/generateAssistantResponse"
    );
    assert_eq!(
        IdeEndpoint::runtime().api_url(&ctx),
        "https://runtime.us-east-1.kiro.dev/generateAssistantResponse"
    );

    let mut eu_credentials = no_credentials();
    eu_credentials.region = Some("eu-west-1".to_string());
    let eu_ctx = RequestContext {
        credentials: &eu_credentials,
        token: "token",
        machine_id: "machine",
        config: &config,
        latest_version: &latest,
    };
    assert_eq!(
        IdeEndpoint::codewhisperer().api_url(&eu_ctx),
        "https://q.eu-central-1.amazonaws.com/generateAssistantResponse"
    );
    assert_eq!(
        IdeEndpoint::runtime().api_url(&eu_ctx),
        "https://runtime.eu-central-1.kiro.dev/generateAssistantResponse"
    );
}

#[test]
fn runtime_adds_only_its_required_optout_header() {
    let config = some_config();
    let latest = LatestVersion::unknown();
    let credentials = no_credentials();
    let ctx = RequestContext {
        credentials: &credentials,
        token: "secret-token",
        machine_id: "machine",
        config: &config,
        latest_version: &latest,
    };

    let codewhisperer = IdeEndpoint::codewhisperer().decorate_api(&ctx);
    assert_eq!(
        header(&codewhisperer, "x-amz-target"),
        Some("AmazonCodeWhispererStreamingService.GenerateAssistantResponse")
    );
    assert_eq!(header(&codewhisperer, "x-amzn-codewhisperer-optout"), None);

    let runtime = IdeEndpoint::runtime().decorate_api(&ctx);
    assert_eq!(header(&runtime, "x-amzn-codewhisperer-optout"), Some("true"));
    assert_eq!(header(&runtime, "authorization"), Some("Bearer secret-token"));
}

#[test]
fn editor_headers_come_in_order() {
    let config = some_config();
    let mut latest = LatestVersion::unknown();
    assert!(latest.store("0.12.301"));
    assert!(!latest.store("0.12.301"));
    let mut credentials = no_credentials();
    credentials.token_type = Some("API_KEY".to_string());
    credentials.profile_arn = Some("arn:profile".to_string());
    let ctx = RequestContext {
        credentials: &credentials,
        token: "token",
        machine_id: "machine",
        config: &config,
        latest_version: &latest,
    };
    let expected = vec![
        ("x-amzn-kiro-agent-mode", "spec"),
        ("x-amz-user-agent", "aws-sdk-js/1.0.34 KiroIDE-0.12.301-machine"),
        (
            "user-agent",
            "aws-sdk-js/1.0.34 ua/2.1 os/darwin#24.6.0 lang/js md/nodejs#22.21.1 api/codewhispererstreaming#1.0.34 m/E KiroIDE-0.12.301-machine",
        ),
        ("host", "q.us-east-1.amazonaws.com"),
        ("amz-sdk-invocation-id", "call"),
        ("amz-sdk-request", "attempt=1; max=3"),
        ("Authorization", "Bearer token"),
        ("TokenType", "API_KEY"),
        ("x-amzn-kiro-profile-arn", "arn:profile"),
    ];
    let headers = IdeEndpoint::amazon_q().mcp_headers(&ctx, "call");
    let shown: Vec<(&str, &str)> = headers
        .iter()
        .map(|(n, v)| (n.as_str(), v.as_str()))
        .collect();
    assert_eq!(shown, expected);
}

#[test]
fn command_line_requests_are_headed_as_such() {
    let config = some_config();
    let latest = LatestVersion::unknown();
    let mut credentials = no_credentials();
    credentials.region = Some("us-west-2".to_string());
    credentials.api_region = Some("EU-north-1".to_string());
    let ctx = RequestContext {
        credentials: &credentials,
        token: "token",
        machine_id: "machine",
        config: &config,
        latest_version: &latest,
    };
    let cli = CliEndpoint::new();
    assert_eq!(
        cli.api_url(&ctx),
        "https://q.eu-central-1.amazonaws.com/SendMessageStreaming"
    );
    assert_eq!(cli.mcp_url(&ctx), "https://q.eu-central-1.amazonaws.com/mcp");
    assert_eq!(cli.content_type(), "application/json");
    let headers = cli.decorate_api(&ctx);
    assert_eq!(header(&headers, "x-amzn-kiro-agent-mode"), Some("spec"));
    assert_eq!(header(&headers, "host"), Some("q.eu-central-1.amazonaws.com"));
    assert_eq!(
        header(&headers, "x-amz-target"),
        Some("AmazonQDeveloperStreamingService.SendMessage")
    );
    assert_eq!(
        header(&headers, "x-amz-user-agent"),
        Some("aws-sdk-js/1.0.34 KiroIDE-0.9.2-machine")
    );
    assert_eq!(header(&headers, "TokenType"), None);
    assert_eq!(header(&cli.decorate_mcp(&ctx), "x-amzn-kiro-profile-arn"), None);
}

#[test]
fn each_request_has_an_identifier_of_its_own() {
    let config = some_config();
    let latest = LatestVersion::unknown();
    let credentials = no_credentials();
    let ctx = RequestContext {
        credentials: &credentials,
        token: "token",
        machine_id: "machine",
        config: &config,
        latest_version: &latest,
    };
    let first = IdeEndpoint::new().decorate_api(&ctx);
    let second = IdeEndpoint::new().decorate_api(&ctx);
    let a = header(&first, "amz-sdk-invocation-id").unwrap();
    let b = header(&second, "amz-sdk-invocation-id").unwrap();
    assert_ne!(a, b);
    assert_eq!(a.len(), 36);
    assert_eq!(&a[14..15], "4");
}

#[test]
fn endpoints_go_by_their_names() {
    assert_eq!(IDE_ENDPOINT_NAME, "ide");
    assert_eq!(CLI_ENDPOINT_NAME, "cli");
    assert_eq!(IdeEndpoint::default().name(), CODEWHISPERER_ENDPOINT_NAME);
    assert_eq!(IdeEndpoint::codewhisperer().display_name(), "CodeWhisperer");
    assert_eq!(IdeEndpoint::amazon_q().name(), AMAZON_Q_ENDPOINT_NAME);
    assert_eq!(IdeEndpoint::amazon_q().display_name(), "AmazonQ");
    assert_eq!(IdeEndpoint::runtime().name(), RUNTIME_ENDPOINT_NAME);
    assert_eq!(IdeEndpoint::runtime().display_name(), "KiroRuntime");
    assert_eq!(CliEndpoint::default().name(), AMAZON_Q_CLI_ENDPOINT_NAME);
    assert_eq!(CliEndpoint::new().display_name(), "AmazonQCLI");
    assert_eq!(CliEndpoint::new().fallback_name(), Some(RUNTIME_ENDPOINT_NAME));
    assert!(!CliEndpoint::new().requires_codewhisperer_model_id());
    assert_eq!(IdeEndpoint::runtime().content_type(), "application/json");
    assert_eq!(CliEndpoint::new().content_type(), "application/json");
}

#[test]
fn normalized_regions_stay() {
    for region in ["eu-west-3", "EU-SOUTH-1", "eu-", "us-gov-west-1", "", "e"] {
        let once = normalize_api_region(region);
        assert_eq!(normalize_api_region(once), once);
    }
    assert_eq!(normalize_api_region("EU-SOUTH-1"), "eu-central-1");
    assert_eq!(normalize_api_region("e"), "us-east-1");
}

#[test]
fn bodies_take_the_form_of_the_endpoint() {
    let config = some_config();
    let latest = LatestVersion::unknown();
    let mut credentials = no_credentials();
    credentials.streaming_profile_arn = Some("arn:streaming".to_string());
    let ctx = RequestContext {
        credentials: &credentials,
        token: "token",
        machine_id: "machine",
        config: &config,
        latest_version: &latest,
    };
    let body = r#"{"conversationState":{"agentTaskType":"vibe","currentMessage":{"userInputMessage":{"content":"hi"}}}}"#;
    assert_eq!(
        IdeEndpoint::runtime().transform_api_body(body, &ctx),
        r#"{"conversationState":{"agentTaskType":"vibe","currentMessage":{"userInputMessage":{"content":"hi","origin":"AI_EDITOR"}}},"profileArn":"arn:streaming"}"#
    );
    assert_eq!(
        CliEndpoint::new().transform_api_body(body, &ctx),
        r#"{"conversationState":{"currentMessage":{"userInputMessage":{"content":"hi","origin":"CLI"}}},"profileArn":"arn:streaming"}"#
    );
    assert_eq!(CliEndpoint::new().transform_api_body("not json", &ctx), "not json");
    assert_eq!(CliEndpoint::new().transform_mcp_body(body, &ctx), body);
}

#[test]
fn endpoints_judge_refusals_alike() {
    let bodies = [
        r#"{"reason":"MONTHLY_REQUEST_COUNT"}"#,
        "The bearer token included in the request is invalid",
        "error 524: a timeout occurred",
        "",
    ];
    for body in bodies {
        let ide = IdeEndpoint::runtime();
        let cli = CliEndpoint::new();
        assert_eq!(ide.is_monthly_request_limit(body), default_is_monthly_request_limit(body));
        assert_eq!(cli.is_bearer_token_invalid(body), default_is_bearer_token_invalid(body));
        assert_eq!(ide.is_account_throttled(body), default_is_account_throttled(body));
        assert_eq!(cli.is_client_validation_error(body), default_is_client_validation_error(body));
        assert_eq!(ide.is_gateway_timeout(body), default_is_gateway_timeout(body));
        assert_eq!(cli.is_account_suspended(body), default_is_account_suspended(body));
    }
    assert!(IdeEndpoint::runtime().is_monthly_request_limit(bodies[0]));
    assert!(CliEndpoint::new().is_bearer_token_invalid(bodies[1]));
}
