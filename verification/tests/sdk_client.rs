use llrt_core::sdk_client::{client_endpoint, client_ping_url, sdk_client_name};

#[test]
fn client_name_of_sdk_specifier() {
    assert_eq!(sdk_client_name("@aws-sdk/client-s3"), Some("s3"));
    assert_eq!(sdk_client_name("@aws-sdk/lib-dynamodb"), Some("lib-dynamodb"));
}

#[test]
fn client_prefix_trimmed_repeatedly() {
    assert_eq!(sdk_client_name("@aws-sdk/client-client-sts"), Some("sts"));
    assert_eq!(sdk_client_name("@aws-sdk/"), Some(""));
}

#[test]
fn other_specifiers() {
    assert_eq!(sdk_client_name("aws-sdk/client-s3"), None);
    assert_eq!(sdk_client_name("./client-s3.js"), None);
}

#[test]
fn endpoint_choice() {
    assert_eq!(client_endpoint("s3", ""), "s3");
    assert_eq!(client_endpoint("dynamodb", "dynamodb-fips"), "dynamodb-fips");
}

#[test]
fn ping_url() {
    assert_eq!(client_ping_url("s3", "eu-west-1"), "https://s3.eu-west-1.amazonaws.com/sping");
}
