use project_fs::bridge::{read_outcome, rename_outcome, write_outcome};
use project_fs::errors::FsError;
use project_fs::init::{
    check_list_directory, check_project_root, creation_error, init_success_message,
    subdirectory_names, InitPlan,
};

#[test]
fn root_check_accepts_a_directory() {
    assert!(check_project_root(true).is_ok());
}

#[test]
fn root_check_rejects_a_non_directory() {
    let e = check_project_root(false).unwrap_err();
    assert!(matches!(e, FsError::InvalidRoot));
}

#[test]
fn listing_check_accepts_a_directory() {
    assert!(check_list_directory(true).is_ok());
}

#[test]
fn listing_check_rejects_a_non_directory() {
    let e = check_list_directory(false).unwrap_err();
    assert!(matches!(e, FsError::InvalidDirectory));
}

#[test]
fn subdirectory_set_is_fixed_and_ordered() {
    let names = subdirectory_names();
    assert_eq!(
        names,
        vec!["chapters".to_string(), "characters".to_string(), "lore".to_string()]
    );
}

#[test]
fn plan_walks_the_subdirectory_set_in_order() {
    let mut plan = InitPlan::new(true).unwrap();
    let mut walked = Vec::new();
    while let Some(name) = plan.next_name() {
        walked.push(name);
        plan.advance();
    }
    assert_eq!(
        walked,
        vec!["chapters".to_string(), "characters".to_string(), "lore".to_string()]
    );
}

#[test]
fn plan_refuses_a_non_directory_root() {
    let e = InitPlan::new(false).unwrap_err();
    assert!(matches!(e, FsError::InvalidRoot));
}

#[test]
fn creation_error_carries_name_and_cause() {
    let e = creation_error("chapters".to_string(), "disk full".to_string());
    match e {
        FsError::CreateFailure { subdirectory, cause } => {
            assert_eq!(subdirectory, "chapters");
            assert_eq!(cause, "disk full");
        }
        _ => panic!("wrong variant"),
    }
}

#[test]
fn initialization_reports_success_in_words() {
    assert_eq!(init_success_message(), "Projet initialisé avec succès.");
}

#[test]
fn read_outcome_passes_content_through() {
    let r = read_outcome(Ok("chapter one".to_string()));
    assert_eq!(r.unwrap(), "chapter one");
}

#[test]
fn read_outcome_wraps_the_cause() {
    let e = read_outcome(Err("No such file".to_string())).unwrap_err();
    match e {
        FsError::ReadFailure { cause } => assert_eq!(cause, "No such file"),
        _ => panic!("wrong variant"),
    }
}

#[test]
fn write_outcome_passes_success_through() {
    assert!(write_outcome(Ok(())).is_ok());
}

#[test]
fn write_outcome_wraps_the_cause() {
    let e = write_outcome(Err("Permission denied".to_string())).unwrap_err();
    match e {
        FsError::WriteFailure { cause } => assert_eq!(cause, "Permission denied"),
        _ => panic!("wrong variant"),
    }
}

#[test]
fn rename_outcome_passes_success_through() {
    assert!(rename_outcome(Ok(())).is_ok());
}

#[test]
fn rename_outcome_wraps_the_cause() {
    let e = rename_outcome(Err("Cross-device link".to_string())).unwrap_err();
    match e {
        FsError::RenameFailure { cause } => assert_eq!(cause, "Cross-device link"),
        _ => panic!("wrong variant"),
    }
}
