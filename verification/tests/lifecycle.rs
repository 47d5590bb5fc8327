//! Credential decisions, configuration migration, session policy, and the
//! facade's builders.

use spotflow::config::{
    convert_dps_url_to_instance_url, convert_iothub_device_id_to_workspace_id_and_device_id,
    migrate_config, parse_schema_version, LegacyConfigRow, SchemaVersion,
};
use spotflow::credentials::{
    can_reuse_cached, command_due, completion_decision, completion_outcome, expect_clockskew,
    init_decision, init_outcome, refresh_outcome, register_decision, register_outcome,
    registration_check_still_valid, should_process_command, CompletionDecision, CompletionError,
    ConnectionStringType, InitDecision, InitProvisioningError,
    ProvisioningOperationClosedReason, RefreshError, RegistrationCommand, RegistrationError,
    RegistrationResponse, RegistrationToken,
};
use spotflow::facade::{
    build_batch_completion, build_message, normalize_instance, validate_database_file,
    Compression, MessageContext,
};
use spotflow::messages::{CloseOption, Compression as StoredCompression};
use spotflow::session::{
    mqtt_username, on_state_change, reconnect_decision, ErrorClass, ReconnectAction,
    SessionState,
};

#[test]
fn cancelled_operation_is_terminal() {
    let e = CompletionError::Closed(ProvisioningOperationClosedReason::Cancelled);
    assert!(matches!(
        completion_decision(&e),
        CompletionDecision::FailTerminal
    ));
}

#[test]
fn closed_operation_restarts() {
    let e = CompletionError::Closed(ProvisioningOperationClosedReason::Other);
    assert!(matches!(
        completion_decision(&e),
        CompletionDecision::RestartOperation
    ));
    assert!(matches!(
        completion_decision(&CompletionError::NotReady),
        CompletionDecision::RetryAfterDelay
    ));
}

#[test]
fn invalid_provisioning_token_fails() {
    assert!(matches!(
        init_decision(&InitProvisioningError::InvalidProvisioningToken),
        InitDecision::FailInvalidToken
    ));
    assert!(matches!(
        init_decision(&InitProvisioningError::WorkspaceDisabled),
        InitDecision::RetryAfterDelay
    ));
}

#[test]
fn invalid_registration_token_restarts_provisioning() {
    assert!(matches!(
        register_decision(&RegistrationError::InvalidRegistrationToken),
        spotflow::credentials::RegisterDecision::RestartProvisioning
    ));
    assert!(matches!(
        register_decision(&RegistrationError::WorkspaceDisabled),
        spotflow::credentials::RegisterDecision::RetryAfterDelay
    ));
}

#[test]
fn workspace_disabled_counts_as_valid() {
    assert!(registration_check_still_valid(
        &RegistrationError::WorkspaceDisabled
    ));
    assert!(registration_check_still_valid(&RegistrationError::Other));
    assert!(!registration_check_still_valid(
        &RegistrationError::InvalidRegistrationToken
    ));
}

#[test]
fn cached_credentials_reuse() {
    let pt = "SECRET-REDACTED".to_string();
    assert!(can_reuse_cached(&pt, &pt, &None, &None, false));
    assert!(!can_reuse_cached(&pt, &pt, &None, &None, true));
    assert!(!can_reuse_cached(
        &pt,
        &"other".to_string(),
        &None,
        &None,
        false
    ));
    assert!(!can_reuse_cached(
        &pt,
        &pt,
        &Some("dev-a".to_string()),
        &Some("dev-b".to_string()),
        false
    ));
}

#[test]
fn token_expiry() {
    let token = RegistrationToken {
        token: "SECRET-REDACTED".to_string(),
        expiration: Some(1000),
    };
    assert!(!token.is_expired(1000));
    assert!(token.is_expired(1001));
    let forever = RegistrationToken {
        token: "SECRET-REDACTED".to_string(),
        expiration: None,
    };
    assert!(!forever.is_expired(i64::MAX - 1));
}

#[test]
fn clockskew_midpoint_and_cap() {
    // Ten minutes remaining: the midpoint, five minutes early.
    assert_eq!(expect_clockskew(600, 0), 300);
    // Two hours remaining: the midpoint comes before the ten-minute cap.
    assert_eq!(expect_clockskew(7200, 0), 3600);
    // Already expired: the midpoint lies past the expiry.
    assert_eq!(expect_clockskew(0, 600), 300);
}

#[test]
fn command_deduplication() {
    assert!(should_process_command(10, 10));
    assert!(should_process_command(11, 10));
    assert!(!should_process_command(9, 10));
    let token_cmd = RegistrationCommand::RefreshRegistrationToken { time: 9 };
    assert!(!command_due(&token_cmd, 10, 0));
    let reg_cmd = RegistrationCommand::RefreshRegistration { time: 9 };
    assert!(command_due(&reg_cmd, 10, 9));
}

#[test]
fn connection_string_fields() {
    let response = RegistrationResponse {
        connection_string:
            "HostName=hub.example.net;DeviceId=ws1:dev1;SharedAccessSignature=sas-token"
                .to_string(),
        iot_hub_host_name: "hub.example.net".to_string(),
        connection_string_type: ConnectionStringType::SharedAccessSignature,
        connection_string_expiration: Some(4000),
        token_remaining_lifetime: None,
    };
    assert_eq!(response.iot_hub_device_id().unwrap(), b"ws1:dev1".to_vec());
    assert_eq!(response.sas().unwrap(), b"sas-token".to_vec());
    let (workspace, device) = response.workspace_and_device_id().unwrap();
    assert_eq!(workspace, b"ws1".to_vec());
    assert_eq!(device, b"dev1".to_vec());
}

#[test]
fn non_sas_connection_string_is_refused() {
    let response = RegistrationResponse {
        connection_string: "DeviceId=ws1:dev1".to_string(),
        iot_hub_host_name: "hub.example.net".to_string(),
        connection_string_type: ConnectionStringType::SharedAccessKey,
        connection_string_expiration: None,
        token_remaining_lifetime: None,
    };
    assert!(response.iot_hub_device_id().is_none());
    assert!(response.sas().is_none());
}

#[test]
fn composite_identifier_split() {
    let (w, d) = convert_iothub_device_id_to_workspace_id_and_device_id("ws:dev").unwrap();
    assert_eq!(w, "ws");
    assert_eq!(d, "dev");
    let (w, d) =
        convert_iothub_device_id_to_workspace_id_and_device_id("ws:dev:extra").unwrap();
    assert_eq!(w, "ws");
    assert_eq!(d, "dev:extra");
    assert!(convert_iothub_device_id_to_workspace_id_and_device_id("no-colon").is_none());
}

#[test]
fn dps_url_conversion() {
    let url = convert_dps_url_to_instance_url("https://device-provisioning.acme.example.io/path")
        .unwrap();
    assert_eq!(url, "https://acme.example.io/");
    let url = convert_dps_url_to_instance_url("https://api.acme.example.io").unwrap();
    assert_eq!(url, "https://api.acme.example.io/");
    assert!(convert_dps_url_to_instance_url("not a url").is_none());
}

#[test]
fn schema_versions() {
    assert!(matches!(
        parse_schema_version(b"0.1.3"),
        Some(SchemaVersion::V0_1_3)
    ));
    assert!(matches!(
        parse_schema_version(b"1.2.0"),
        Some(SchemaVersion::V1_2_0)
    ));
    // A future version refuses to open.
    assert!(parse_schema_version(b"2.0.0").is_none());
}

#[test]
fn migration_preserves_every_field() {
    let row = LegacyConfigRow {
        version: SchemaVersion::V1_1_0,
        instance_url: None,
        dps_url: Some("https://device-provisioning.acme.example.io".to_string()),
        provisioning_token: "SECRET-REDACTED".to_string(),
        registration_token: "SECRET-REDACTED".to_string(),
        rt_expiration: Some(777),
        requested_device_id: Some("requested".to_string()),
        composite_device_id: Some("ws1:dev1".to_string()),
        workspace_id: None,
        device_id: None,
    };
    let migrated = migrate_config(&row).unwrap();
    assert_eq!(migrated.instance_url, "https://acme.example.io/");
    assert_eq!(migrated.provisioning_token, row.provisioning_token);
    assert_eq!(migrated.registration_token, row.registration_token);
    assert_eq!(migrated.rt_expiration, Some(777));
    assert_eq!(migrated.requested_device_id, Some("requested".to_string()));
    assert_eq!(migrated.workspace_id, "ws1");
    assert_eq!(migrated.device_id, "dev1");
}

#[test]
fn current_row_passes_through() {
    let row = LegacyConfigRow {
        version: SchemaVersion::V1_2_0,
        instance_url: Some("https://acme.example.io/".to_string()),
        dps_url: None,
        provisioning_token: "SECRET-REDACTED".to_string(),
        registration_token: "SECRET-REDACTED".to_string(),
        rt_expiration: None,
        requested_device_id: None,
        composite_device_id: None,
        workspace_id: Some("ws1".to_string()),
        device_id: Some("dev1".to_string()),
    };
    let migrated = migrate_config(&row).unwrap();
    assert_eq!(migrated.instance_url, "https://acme.example.io/");
    assert_eq!(migrated.workspace_id, "ws1");
    assert_eq!(migrated.device_id, "dev1");
}

#[test]
fn reconnect_policy() {
    assert!(matches!(
        reconnect_decision(true, &ErrorClass::OtherError),
        ReconnectAction::UpdatePassword
    ));
    assert!(matches!(
        reconnect_decision(false, &ErrorClass::NotAuthorized),
        ReconnectAction::RequestRefreshAndWait
    ));
    assert!(matches!(
        reconnect_decision(false, &ErrorClass::BadUserNamePassword),
        ReconnectAction::RequestRefreshAndWait
    ));
    assert!(matches!(
        reconnect_decision(false, &ErrorClass::ServiceUnavailable),
        ReconnectAction::RequestRefreshAndWait
    ));
    assert!(matches!(
        reconnect_decision(false, &ErrorClass::OtherError),
        ReconnectAction::Wait
    ));
}

#[test]
fn ready_after_error_requests_full_twin() {
    // Error: remember the outage.
    let (flag, request) = on_state_change(false, &SessionState::ConnectionError(
        ErrorClass::OtherError,
    ));
    assert!(flag);
    assert!(!request);
    // Back to ready: request a full snapshot exactly once.
    let (flag, request) = on_state_change(flag, &SessionState::Ready);
    assert!(!flag);
    assert!(request);
    // Staying ready requests nothing further.
    let (_, request) = on_state_change(flag, &SessionState::Ready);
    assert!(!request);
}

#[test]
fn broker_username() {
    assert_eq!(
        mqtt_username("hub.example.net", "ws:dev"),
        "hub.example.net/ws:dev/?api-version=2018-06-30"
    );
}

#[test]
fn enqueue_builders() {
    let mut ctx = MessageContext::new(Some("group".to_string()), Some("stream".to_string()));
    ctx.set_compression(Some(Compression::Fastest));
    let msg = build_message(
        &ctx,
        &Some("site".to_string()),
        Some("b1".to_string()),
        Some("m1".to_string()),
        vec![1, 2, 3],
    );
    assert_eq!(msg.stream_group, Some("group".to_string()));
    assert_eq!(msg.stream, Some("stream".to_string()));
    assert_eq!(msg.site_id, Some("site".to_string()));
    assert_eq!(msg.content, vec![1, 2, 3]);
    assert!(matches!(msg.close_option, CloseOption::NoClose));
    assert!(matches!(msg.compression, StoredCompression::BrotliFastest));

    let completion = build_batch_completion(&ctx, &None, "b1".to_string());
    assert!(completion.content.is_empty());
    assert!(matches!(completion.close_option, CloseOption::CloseBatchOnly));
    assert!(matches!(
        completion.compression,
        StoredCompression::Uncompressed
    ));
}

#[test]
fn instance_normalization() {
    assert_eq!(normalize_instance(&None), "api.eu1.spotflow.io");
    assert_eq!(
        normalize_instance(&Some("https://acme.example.io".to_string())),
        "acme.example.io"
    );
    assert_eq!(
        normalize_instance(&Some("acme.example.io".to_string())),
        "acme.example.io"
    );
}

#[test]
fn database_file_validation() {
    assert!(validate_database_file("spotflow.db"));
    assert!(!validate_database_file(""));
    assert!(!validate_database_file("spotflow.txt"));
    assert!(!validate_database_file("db"));
}

#[test]
fn migration_without_legacy_url_fails() {
    let row = LegacyConfigRow {
        version: SchemaVersion::V0_1_3,
        instance_url: None,
        dps_url: None,
        provisioning_token: "SECRET-REDACTED".to_string(),
        registration_token: "SECRET-REDACTED".to_string(),
        rt_expiration: None,
        requested_device_id: None,
        composite_device_id: Some("ws:dev".to_string()),
        workspace_id: None,
        device_id: None,
    };
    assert!(migrate_config(&row).is_err());
}

#[test]
fn migration_rejects_bad_identifiers() {
    let base = LegacyConfigRow {
        version: SchemaVersion::V0_1_3,
        instance_url: None,
        dps_url: Some("https://device-provisioning.acme.example.io".to_string()),
        provisioning_token: "SECRET-REDACTED".to_string(),
        registration_token: "SECRET-REDACTED".to_string(),
        rt_expiration: None,
        requested_device_id: None,
        composite_device_id: Some("no-colon".to_string()),
        workspace_id: None,
        device_id: None,
    };
    // A composite identifier without a colon cannot be split.
    assert!(migrate_config(&base).is_err());
    // A provisioning URL without a host yields no instance URL.
    let bad_url = LegacyConfigRow {
        dps_url: Some("not a url".to_string()),
        composite_device_id: Some("ws:dev".to_string()),
        ..base
    };
    assert!(migrate_config(&bad_url).is_err());
}

#[test]
fn version_gap_error_names_versions() {
    let err = spotflow::twin::desired_update_error(
        &spotflow::twin::DesiredUpdateOutcome::VersionGap,
        5,
        8,
    )
    .unwrap();
    assert!(matches!(
        err,
        spotflow::twin::PropertiesUpdateError::PatchVersionMismatch {
            current_version: 5,
            patch_version: 8
        }
    ));
    assert!(spotflow::twin::desired_update_error(
        &spotflow::twin::DesiredUpdateOutcome::Applied,
        5,
        6
    )
    .is_none());
}

#[test]
fn rest_reply_classification() {
    assert!(init_outcome(200).is_none());
    assert!(matches!(
        init_outcome(401),
        Some(InitProvisioningError::InvalidProvisioningToken)
    ));
    assert!(matches!(
        init_outcome(423),
        Some(InitProvisioningError::WorkspaceDisabled)
    ));
    assert!(matches!(init_outcome(500), Some(InitProvisioningError::Other)));

    assert!(completion_outcome(200, None).is_none());
    assert!(matches!(
        completion_outcome(202, None),
        Some(CompletionError::NotReady)
    ));
    assert!(matches!(
        completion_outcome(
            410,
            Some(b"/problems/deviceProvisioning/provisioningOperationCancelled")
        ),
        Some(CompletionError::Closed(ProvisioningOperationClosedReason::Cancelled))
    ));
    assert!(matches!(
        completion_outcome(410, Some(b"/problems/other")),
        Some(CompletionError::Closed(ProvisioningOperationClosedReason::Other))
    ));
    assert!(matches!(
        completion_outcome(410, None),
        Some(CompletionError::Closed(ProvisioningOperationClosedReason::Other))
    ));
    assert!(matches!(
        completion_outcome(423, None),
        Some(CompletionError::WorkspaceDisabled)
    ));
    assert!(matches!(completion_outcome(500, None), Some(CompletionError::Other)));

    assert!(register_outcome(204).is_none());
    assert!(matches!(
        register_outcome(401),
        Some(RegistrationError::InvalidRegistrationToken)
    ));
    assert!(matches!(
        register_outcome(423),
        Some(RegistrationError::WorkspaceDisabled)
    ));
    assert!(matches!(register_outcome(500), Some(RegistrationError::Other)));

    assert!(refresh_outcome(200).is_none());
    assert!(matches!(refresh_outcome(423), Some(RefreshError::WorkspaceDisabled)));
    assert!(matches!(refresh_outcome(404), Some(RefreshError::Other)));
}

#[test]
fn empty_signal_source_never_stops() {
    let source = spotflow::facade::EmptyProcessSignalsSource::instance();
    assert!(spotflow::facade::ProcessSignalsSource::check_signals(&source).is_ok());
}
