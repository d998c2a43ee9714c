use slot_filler::errors::SnipsNluError;
use slot_filler::injection::NluInjectionErrorKind;

#[test]
fn nlu_error_messages_name_the_failure() {
    assert_eq!(
        SnipsNluError::ModelLoad("model.json".to_string()).message(),
        "Unable to read file 'model.json'"
    );
    assert_eq!(
        SnipsNluError::WrongModelVersion { model: "0.1".to_string(), runner: "0.2" }.message(),
        "Mismatched model version: model is \"0.1\" but runner is \"0.2\""
    );
    assert_eq!(
        SnipsNluError::UnknownIntent("SetLightColor".to_string()).message(),
        "Unknown intent: 'SetLightColor'"
    );
    assert_eq!(
        SnipsNluError::InternalError("broken state".to_string()).message(),
        "Internal error: broken state"
    );
}

#[test]
fn injection_error_messages_name_the_failure() {
    assert_eq!(
        NluInjectionErrorKind::EntityNotInjectable { msg: "city".to_string() }.message(),
        "Entity is not injectable: \"city\""
    );
    assert_eq!(
        NluInjectionErrorKind::InternalInjectionError { msg: "no model".to_string() }.message(),
        "Internal injection error: \"no model\""
    );
}
