use openportal::grammar::{Instruction, UserIdentifier, UserMapping};

#[test]
fn test_user_identifier() {
    let user = UserIdentifier::parse("user.project.portal").unwrap_or_default();
    assert_eq!(user.username(), "user");
    assert_eq!(user.project(), "project");
    assert_eq!(user.portal(), "portal");
    assert_eq!(user.to_string(), "user.project.portal");
}

#[test]
fn test_user_mapping() {
    let user = UserIdentifier::parse("user.project.portal").unwrap_or_default();
    let mapping = UserMapping::new(&user, "local_user", "local_project").unwrap_or_default();
    assert_eq!(mapping.user(), &user);
    assert_eq!(mapping.local_user(), "local_user");
    assert_eq!(mapping.local_project(), "local_project");
    assert_eq!(
        mapping.to_string(),
        "user.project.portal:local_user:local_project"
    );
}

#[test]
fn test_instruction() {
    let user = UserIdentifier::parse("user.project.portal").unwrap_or_default();
    let mapping = UserMapping::new(&user, "local_user", "local_project").unwrap_or_default();

    let instruction = Instruction::new("add_user user.project.portal");
    assert_eq!(instruction, Instruction::AddUser(user.clone()));

    let instruction = Instruction::new("remove_user user.project.portal");
    assert_eq!(instruction, Instruction::RemoveUser(user.clone()));

    let instruction =
        Instruction::new("add_local_user user.project.portal:local_user:local_project");
    assert_eq!(instruction, Instruction::AddLocalUser(mapping.clone()));

    let instruction =
        Instruction::new("remove_local_user user.project.portal:local_user:local_project");
    assert_eq!(instruction, Instruction::RemoveLocalUser(mapping.clone()));

    let instruction = Instruction::new("update_homedir user.project.portal /home/user");
    assert_eq!(
        instruction,
        Instruction::UpdateHomeDir(user.clone(), "/home/user".to_string())
    );

    let instruction = Instruction::new("invalid");
    assert_eq!(instruction, Instruction::Invalid());
}

#[test]
fn assert_serialize_user() {
    let user = UserIdentifier::parse("user.project.portal").unwrap_or_default();
    let serialized = serde_json::to_string(&user.to_string()).unwrap_or_default();
    assert_eq!(serialized, "\"user.project.portal\"");
}

#[test]
fn assert_deserialize_user() {
    let text: String = serde_json::from_str("\"user.project.portal\"").unwrap_or_default();
    let user = UserIdentifier::parse(&text).unwrap_or_default();
    assert_eq!(user.to_string(), "user.project.portal");
}

#[test]
fn assert_serialize_mapping() {
    let user = UserIdentifier::parse("user.project.portal").unwrap_or_default();
    let mapping = UserMapping::new(&user, "local_user", "local_project").unwrap_or_default();
    let serialized = serde_json::to_string(&mapping.to_string()).unwrap_or_default();
    assert_eq!(
        serialized,
        "\"user.project.portal:local_user:local_project\""
    );
}

#[test]
fn assert_deserialize_mapping() {
    let text: String =
        serde_json::from_str("\"user.project.portal:local_user:local_project\"")
            .unwrap_or_default();
    let mapping = UserMapping::parse(&text).unwrap_or_default();
    assert_eq!(
        mapping.to_string(),
        "user.project.portal:local_user:local_project"
    );
}

#[test]
fn assert_serialize_instruction() {
    let user = UserIdentifier::parse("user.project.portal").unwrap_or_default();
    let mapping = UserMapping::new(&user, "local_user", "local_project").unwrap_or_default();

    let instruction = Instruction::AddUser(user.clone());
    let serialized = serde_json::to_string(&instruction.to_string()).unwrap_or_default();
    assert_eq!(serialized, "\"add_user user.project.portal\"");

    let instruction = Instruction::RemoveUser(user.clone());
    let serialized = serde_json::to_string(&instruction.to_string()).unwrap_or_default();
    assert_eq!(serialized, "\"remove_user user.project.portal\"");

    let instruction = Instruction::AddLocalUser(mapping.clone());
    let serialized = serde_json::to_string(&instruction.to_string()).unwrap_or_default();
    assert_eq!(
        serialized,
        "\"add_local_user user.project.portal:local_user:local_project\""
    );

    let instruction = Instruction::RemoveLocalUser(mapping.clone());
    let serialized = serde_json::to_string(&instruction.to_string()).unwrap_or_default();
    assert_eq!(
        serialized,
        "\"remove_local_user user.project.portal:local_user:local_project\""
    );

    let instruction = Instruction::UpdateHomeDir(user.clone(), "/home/user".to_string());
    let serialized = serde_json::to_string(&instruction.to_string()).unwrap_or_default();
    assert_eq!(
        serialized,
        "\"update_homedir user.project.portal /home/user\""
    );

    let instruction = Instruction::Invalid();
    let serialized = serde_json::to_string(&instruction.to_string()).unwrap_or_default();
    assert_eq!(serialized, "\"invalid\"");
}

#[test]
fn assert_deserialize_instruction() {
    let user = UserIdentifier::parse("user.project.portal").unwrap_or_default();
    let mapping = UserMapping::new(&user, "local_user", "local_project").unwrap_or_default();

    let text: String =
        serde_json::from_str("\"add_user user.project.portal\"").unwrap_or_default();
    assert_eq!(Instruction::new(&text), Instruction::AddUser(user.clone()));

    let text: String =
        serde_json::from_str("\"remove_user user.project.portal\"").unwrap_or_default();
    assert_eq!(Instruction::new(&text), Instruction::RemoveUser(user.clone()));

    let text: String =
        serde_json::from_str("\"add_local_user user.project.portal:local_user:local_project\"")
            .unwrap_or_default();
    assert_eq!(Instruction::new(&text), Instruction::AddLocalUser(mapping.clone()));

    let text: String = serde_json::from_str(
        "\"remove_local_user user.project.portal:local_user:local_project\"",
    )
    .unwrap_or_default();
    assert_eq!(Instruction::new(&text), Instruction::RemoveLocalUser(mapping.clone()));

    let text: String =
        serde_json::from_str("\"update_homedir user.project.portal /home/user\"")
            .unwrap_or_default();
    assert_eq!(
        Instruction::new(&text),
        Instruction::UpdateHomeDir(user.clone(), "/home/user".to_string())
    );

    let text: String = serde_json::from_str("\"invalid\"").unwrap_or_default();
    assert_eq!(Instruction::new(&text), Instruction::Invalid());
}

#[test]
fn user_identifier_refuses_empty_parts() {
    assert!(matches!(
        UserIdentifier::parse("u..portal"),
        Err(openportal::error::Error::Parse(_))
    ));
    assert!(UserIdentifier::parse(".p.portal").is_err());
    assert!(UserIdentifier::parse("u.p.").is_err());
    assert!(UserIdentifier::parse("u.p").is_err());
    assert!(UserIdentifier::parse("u.p.q.r").is_err());
    assert!(UserIdentifier::parse("").is_err());
    assert!(UserIdentifier::parse(" . . ").is_err());
}

#[test]
fn user_identifier_trims_its_parts() {
    let user = UserIdentifier::parse("  alice .\tproj. portal\n").unwrap();
    assert_eq!(user.username(), "alice");
    assert_eq!(user.project(), "proj");
    assert_eq!(user.portal(), "portal");
    assert!(user.is_valid());
    assert!(!UserIdentifier::default().is_valid());
}

#[test]
fn user_mapping_refuses_empty_names() {
    let user = UserIdentifier::parse("u.p.portal").unwrap();
    assert!(matches!(
        UserMapping::new(&user, "  ", "lp"),
        Err(openportal::error::Error::Parse(_))
    ));
    assert!(UserMapping::new(&user, "lu", "").is_err());
    assert!(UserMapping::parse("u.p.portal:lu").is_err());
    assert!(UserMapping::parse("u.p.portal:lu:lp:x").is_err());
    assert!(UserMapping::parse("u.p:lu:lp").is_err());
    assert!(UserMapping::parse("u.p.portal: :lp").is_err());
    let mapping = UserMapping::parse("u.p.portal: lu : lp ").unwrap();
    assert_eq!(mapping.local_user(), "lu");
    assert_eq!(mapping.local_project(), "lp");
    assert!(mapping.is_valid());
    assert!(!UserMapping::default().is_valid());
}

#[test]
fn instruction_without_homedir_is_invalid() {
    assert_eq!(
        Instruction::new("update_homedir u.p.portal"),
        Instruction::Invalid()
    );
    assert_eq!(
        Instruction::new("update_homedir u.p.portal  /home/u"),
        Instruction::Invalid()
    );
    assert_eq!(Instruction::new("update_homedir"), Instruction::Invalid());
    assert_eq!(Instruction::new(""), Instruction::Invalid());
    assert_eq!(Instruction::new("add_user"), Instruction::Invalid());
    assert_eq!(Instruction::new("add_user u.p"), Instruction::Invalid());
    assert_eq!(Instruction::new("ADD_USER u.p.q"), Instruction::Invalid());
    assert_eq!(Instruction::new(" add_user u.p.q"), Instruction::Invalid());
    assert_eq!(Instruction::default(), Instruction::Invalid());
    assert!(!Instruction::Invalid().is_valid());
}

#[test]
fn instruction_ignores_words_after_the_homedir() {
    let user = UserIdentifier::parse("u.p.portal").unwrap();
    assert_eq!(
        Instruction::new("update_homedir u.p.portal /home/u more words"),
        Instruction::UpdateHomeDir(user, "/home/u".to_string())
    );
}

#[test]
fn instruction_text_reads_back() {
    let texts = [
        "add_user alice.proj.portal",
        "remove_user alice.proj.portal",
        "add_local_user alice.proj.portal:alice:proj",
        "remove_local_user alice.proj.portal:alice:proj",
        "update_homedir alice.proj.portal /home/alice",
    ];
    for text in texts {
        let instruction = Instruction::new(text);
        assert!(instruction.is_valid());
        assert_eq!(instruction.to_string(), text);
        assert_eq!(Instruction::new(&instruction.to_string()), instruction);
    }
    assert_eq!(Instruction::Invalid().to_string(), "invalid");
}

#[test]
fn instruction_with_a_colon_in_a_name_does_not_read_back() {
    let user = UserIdentifier::parse("u.p.portal").unwrap();
    let mapping = UserMapping::new(&user, "a:b", "lp").unwrap();
    let instruction = Instruction::AddLocalUser(mapping);
    assert!(instruction.is_valid());
    assert_eq!(Instruction::new(&instruction.to_string()), Instruction::Invalid());
}
