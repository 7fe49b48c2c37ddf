use ckbtc_minter::swap::{
    CfNeuron, CfParticipant, Init, ListDirectParticipantsResponse,
    NeuronBasketConstructionParameters, OpenRequest, Params, Participant,
    MAX_LIST_DIRECT_PARTICIPANTS_LIMIT, SECONDS_PER_DAY,
};
use std::mem;

const E8: u64 = 100_000_000;
const START_OF_2022_TIMESTAMP_SECONDS: u64 = 1_640_995_200;
const OPEN_SNS_TOKEN_SWAP_PROPOSAL_ID: u64 = 489102;

const PARAMS: Params = Params {
    max_icp_e8s: 1_000 * E8,
    max_participant_icp_e8s: 1_000 * E8,
    min_icp_e8s: 10 * E8,
    min_participant_icp_e8s: 5 * E8,
    sns_token_e8s: 5_000 * E8,
    min_participants: 10,
    swap_due_timestamp_seconds: START_OF_2022_TIMESTAMP_SECONDS + 14 * SECONDS_PER_DAY,
    neuron_basket_construction_parameters: Some(NeuronBasketConstructionParameters {
        count: 3,
        dissolve_delay_interval_seconds: 7890000, // 3 months
    }),
    sale_delay_seconds: None,
};

fn init() -> Init {
    Init {
        transaction_fee_e8s: Some(12_345),
        neuron_minimum_stake_e8s: Some(123_456_789),
        ..Default::default()
    }
}

fn open_request() -> OpenRequest {
    OpenRequest {
        params: Some(PARAMS),
        cf_participants: vec![CfParticipant {
            hotkey_principal: candid::Principal::anonymous().to_string(),
            cf_neurons: vec![CfNeuron {
                nns_neuron_id: 42,
                amount_icp_e8s: 99,
            }],
        }],
        open_sns_token_swap_proposal_id: Some(OPEN_SNS_TOKEN_SWAP_PROPOSAL_ID),
    }
}

#[test]
fn accept_iff_can_form_sns_neuron_in_the_worst_case() {
    let mut init = init();

    let sns_token_e8s =
        PARAMS.min_participant_icp_e8s as u128 * PARAMS.sns_token_e8s as u128
            / PARAMS.max_icp_e8s as u128;
    let neuron_basket_count = PARAMS
        .neuron_basket_construction_parameters
        .as_ref()
        .expect("participant_neuron_basket not populated.")
        .count as u128;
    let available_sns_token_e8s_per_neuron =
        sns_token_e8s / neuron_basket_count - init.transaction_fee_e8s.unwrap() as u128;
    assert!(available_sns_token_e8s_per_neuron < u64::MAX as u128);
    let available_sns_token_e8s_per_neuron = available_sns_token_e8s_per_neuron as u64;
    assert!(init.neuron_minimum_stake_e8s.unwrap() <= available_sns_token_e8s_per_neuron);

    // Set the bar as high as min_participant_icp_e8s can "jump".
    init.neuron_minimum_stake_e8s = Some(available_sns_token_e8s_per_neuron);
    assert!(PARAMS.validate(&init).is_ok());

    // The bar can still be cleared if lowered.
    init.neuron_minimum_stake_e8s = Some(available_sns_token_e8s_per_neuron - 1);
    assert!(PARAMS.validate(&init).is_ok());

    // Raise the bar so that it can no longer be cleared.
    init.neuron_minimum_stake_e8s = Some(available_sns_token_e8s_per_neuron + 1);
    assert!(PARAMS.validate(&init).is_err());
}

#[test]
fn open_request_validate_ok() {
    assert!(open_request()
        .validate(START_OF_2022_TIMESTAMP_SECONDS, &init())
        .is_ok());
}

#[test]
fn params_high_participants_validate_ok() {
    let params = Params {
        min_participants: 500,
        // max_icp_e8s must be enough for all of min_participants to participate
        max_icp_e8s: 500 * PARAMS.min_participant_icp_e8s,
        ..PARAMS
    };
    params.validate(&init()).unwrap();
}

#[test]
fn open_request_validate_invalid_params() {
    let request = OpenRequest {
        params: Some(Params {
            swap_due_timestamp_seconds: 42,
            ..PARAMS
        }),
        ..open_request()
    };

    assert!(request
        .validate(START_OF_2022_TIMESTAMP_SECONDS, &init())
        .is_err());
}

#[test]
fn open_request_validate_no_proposal_id() {
    let request = OpenRequest {
        open_sns_token_swap_proposal_id: None,
        ..open_request()
    };

    assert!(request
        .validate(START_OF_2022_TIMESTAMP_SECONDS, &init())
        .is_err());
}

#[test]
fn participant_total_icp_e8s_no_overflow() {
    let participant = CfParticipant {
        hotkey_principal: "".to_string(),
        cf_neurons: vec![
            CfNeuron {
                nns_neuron_id: 0,
                amount_icp_e8s: u64::MAX,
            },
            CfNeuron {
                nns_neuron_id: 0,
                amount_icp_e8s: u64::MAX,
            },
        ],
    };
    let total = participant.participant_total_icp_e8s();
    assert_eq!(total, u64::MAX);
}

/// Test that the configured MAX_LIST_DIRECT_PARTICIPANTS_LIMIT will efficiently pack
/// Participants and not exceed the message size limits of the IC.
#[test]
fn test_list_direct_participation_limit_is_accurate_and_efficient() {
    let max_inter_canister_payload_in_bytes = 2 * 1024 * 1024; // 2 MiB
    let participant_size = mem::size_of::<Participant>();
    let response_size = mem::size_of::<ListDirectParticipantsResponse>();

    // Account for Response overhead, then divide the max message size by the memory footprint
    // of the participant.
    let participants_per_message =
        (max_inter_canister_payload_in_bytes - response_size) / participant_size;

    assert!(
        participants_per_message >= MAX_LIST_DIRECT_PARTICIPANTS_LIMIT as usize,
        "The currently compiled MAX_LIST_DIRECT_PARTICIPANTS_LIMIT is greater than what can \
        fit in a single inter canister message. Calculated participants per message: {}. \
        Configured limit: {}",
        participants_per_message,
        MAX_LIST_DIRECT_PARTICIPANTS_LIMIT
    );

    let remainder = participants_per_message - MAX_LIST_DIRECT_PARTICIPANTS_LIMIT as usize;
    assert!(
        remainder < 5000,
        "An increment of more than 5000 participants ({}) can be added to the \
        ListDirectParticipantsResponse without reaching the max message size. Update \
        MAX_LIST_DIRECT_PARTICIPANTS_LIMIT and the corresponding API docs",
        remainder
    );
}

#[test]
fn sale_cannot_be_open_more_than_90_days() {
    // Should be valid with the sale deadline set to MAX_SALE_DURATION_SECONDS from now.
    let params = Params {
        swap_due_timestamp_seconds: Params::MAX_SALE_DURATION_SECONDS,
        sale_delay_seconds: Some(0),
        ..PARAMS
    };
    assert!(params.is_valid_if_initiated_at(0));

    let params = Params {
        swap_due_timestamp_seconds: START_OF_2022_TIMESTAMP_SECONDS
            + Params::MAX_SALE_DURATION_SECONDS,
        sale_delay_seconds: Some(0),
        ..PARAMS
    };
    assert!(params.is_valid_if_initiated_at(START_OF_2022_TIMESTAMP_SECONDS));

    // Should be invalid with the sale deadline set MAX_SALE_DURATION_SECONDS + 1 second from now.
    let params = Params {
        swap_due_timestamp_seconds: Params::MAX_SALE_DURATION_SECONDS + 1,
        sale_delay_seconds: Some(0),
        ..PARAMS
    };
    assert!(!params.is_valid_if_initiated_at(0));

    let params = Params {
        swap_due_timestamp_seconds: START_OF_2022_TIMESTAMP_SECONDS
            + Params::MAX_SALE_DURATION_SECONDS
            + 1,
        sale_delay_seconds: Some(0),
        ..PARAMS
    };
    assert!(!params.is_valid_if_initiated_at(START_OF_2022_TIMESTAMP_SECONDS));
}

#[test]
fn sale_cannot_be_open_more_than_90_days_takes_into_account_delay() {
    // Would normally be invalid with MAX_SALE_DURATION_SECONDS + 1 second, but 1 second
    // of sale_delay makes the real period only MAX_SALE_DURATION_SECONDS, which is allowed.
    let params = Params {
        swap_due_timestamp_seconds: Params::MAX_SALE_DURATION_SECONDS + 1,
        sale_delay_seconds: Some(1),
        ..PARAMS
    };
    assert!(params.is_valid_if_initiated_at(0));

    let params = Params {
        swap_due_timestamp_seconds: START_OF_2022_TIMESTAMP_SECONDS
            + Params::MAX_SALE_DURATION_SECONDS
            + 1,
        sale_delay_seconds: Some(1),
        ..PARAMS
    };
    assert!(params.is_valid_if_initiated_at(START_OF_2022_TIMESTAMP_SECONDS));
}

#[test]
fn sale_must_be_open_for_at_least_one_day() {
    // Should be valid with the sale length set to MIN_SALE_DURATION_SECONDS.
    let params = Params {
        swap_due_timestamp_seconds: Params::MIN_SALE_DURATION_SECONDS,
        sale_delay_seconds: Some(0),
        ..PARAMS
    };
    assert!(params.is_valid_if_initiated_at(0));

    let params = Params {
        swap_due_timestamp_seconds: START_OF_2022_TIMESTAMP_SECONDS
            + Params::MIN_SALE_DURATION_SECONDS,
        sale_delay_seconds: Some(0),
        ..PARAMS
    };
    assert!(params.is_valid_if_initiated_at(START_OF_2022_TIMESTAMP_SECONDS));

    // Should fail with the sale length set to one second less than MIN_SALE_DURATION_SECONDS.
    let params = Params {
        swap_due_timestamp_seconds: Params::MIN_SALE_DURATION_SECONDS - 1,
        sale_delay_seconds: Some(0),
        ..PARAMS
    };
    assert!(!params.is_valid_if_initiated_at(0));

    let params = Params {
        swap_due_timestamp_seconds: START_OF_2022_TIMESTAMP_SECONDS
            + Params::MIN_SALE_DURATION_SECONDS
            - 1,
        sale_delay_seconds: Some(0),
        ..PARAMS
    };
    assert!(!params.is_valid_if_initiated_at(START_OF_2022_TIMESTAMP_SECONDS));
}

#[test]
fn sale_must_be_open_for_at_least_one_day_takes_into_account_delay() {
    // Should be valid with the sale deadline set to MIN_SALE_DURATION_SECONDS + 1 second from now
    // with a sale delay of 1 second.
    let params = Params {
        swap_due_timestamp_seconds: Params::MIN_SALE_DURATION_SECONDS + 1,
        sale_delay_seconds: Some(1),
        ..PARAMS
    };
    assert!(params.is_valid_if_initiated_at(0));

    let params = Params {
        swap_due_timestamp_seconds: START_OF_2022_TIMESTAMP_SECONDS
            + Params::MIN_SALE_DURATION_SECONDS
            + 1,
        sale_delay_seconds: Some(1),
        ..PARAMS
    };
    assert!(params.is_valid_if_initiated_at(START_OF_2022_TIMESTAMP_SECONDS));

    // Should be invalid with the sale deadline set to MIN_SALE_DURATION_SECONDS from now
    // with a sale delay of 1 second.
    let params = Params {
        swap_due_timestamp_seconds: Params::MIN_SALE_DURATION_SECONDS,
        sale_delay_seconds: Some(1),
        ..PARAMS
    };
    assert!(!params.is_valid_if_initiated_at(0));

    let params = Params {
        swap_due_timestamp_seconds: START_OF_2022_TIMESTAMP_SECONDS
            + Params::MIN_SALE_DURATION_SECONDS,
        sale_delay_seconds: Some(1),
        ..PARAMS
    };
    assert!(!params.is_valid_if_initiated_at(START_OF_2022_TIMESTAMP_SECONDS));
}

#[test]
fn principal_validation_matches_candid() {
    let anonymous = candid::Principal::anonymous().to_string();
    assert!(ckbtc_minter::swap::is_valid_principal(&anonymous));
    assert_eq!(
        ckbtc_minter::swap::is_valid_principal("not a principal"),
        candid::Principal::from_text("not a principal").is_ok()
    );
    assert!(ckbtc_minter::swap::validate_canister_id(&anonymous).is_ok());
    assert!(ckbtc_minter::swap::validate_principal("x-y-z").is_err());
}

#[test]
fn init_validate_requires_fees_and_controllers() {
    let anonymous = candid::Principal::anonymous().to_string();
    let mut config = Init {
        nns_governance_canister_id: anonymous.clone(),
        sns_governance_canister_id: anonymous.clone(),
        sns_root_canister_id: anonymous.clone(),
        sns_ledger_canister_id: anonymous.clone(),
        icp_ledger_canister_id: anonymous.clone(),
        fallback_controller_principal_ids: vec![anonymous.clone()],
        transaction_fee_e8s: Some(10),
        neuron_minimum_stake_e8s: Some(1),
    };
    assert!(config.validate().is_ok());
    config.transaction_fee_e8s = None;
    assert!(config.validate().is_err());
    config.transaction_fee_e8s = Some(10);
    config.fallback_controller_principal_ids = vec![];
    assert!(config.validate().is_err());
    config.fallback_controller_principal_ids = vec!["garbage".to_string()];
    assert!(config.validate().is_err());
}
