//! The permission rules of the user service.
use scheduler::time::Timestamp;
use scheduler::user::{
    ApiKey, ApiKeyId, ApiKeyRepositoryError, CreateUserRequest, Turn, User, UserId,
    UserRepositoryError, UserRequest, UserServiceError, UserServiceImpl,
};
use secrecy::{ExposeSecret, SecretString};

fn make_mock_api_key(id: ApiKeyId, user_id: UserId) -> ApiKey {
    ApiKey {
        id,
        user_id: Some(user_id),
        cluster_id: None,
        prefix: "lilac_sk_abc".to_string(),
        key_hash: "hash".to_string(),
        created_at: Timestamp::now(),
        last_used_at: None,
        expires_at: None,
    }
}

fn mock_user() -> User {
    User { id: UserId(1), username: "mock".to_string(), first_name: None, last_name: None }
}

#[test]
fn test_delete_user_self_succeeds() {
    let user_id = UserId(1);
    let service = UserServiceImpl::new(());
    let turn = service.delete_user(&user_id, &user_id);
    assert_eq!(turn, Turn::Ask(UserRequest::DeleteUser(user_id)));
    let result = service.user_deleted(Ok(()));
    assert!(result.is_ok());
}

#[test]
fn test_delete_user_other_user_fails() {
    let current_user_id = UserId(1);
    let target_user_id = UserId(2);
    let service = UserServiceImpl::new(());
    let turn = service.delete_user(&current_user_id, &target_user_id);
    assert!(matches!(turn, Turn::Fail(UserServiceError::InvalidPermissions)));
}

#[test]
fn test_delete_api_key_owned_by_user_succeeds() {
    let user_id = UserId(1);
    let key_id = ApiKeyId(2);
    let key = make_mock_api_key(key_id, user_id);
    let service = UserServiceImpl::new(());
    let deletion = service.delete_api_key(&user_id, &key_id);
    assert_eq!(deletion.user_id, user_id);
    let turn = deletion.keys_listed(Ok(vec![key]));
    assert_eq!(turn, Turn::Ask(UserRequest::DeleteApiKey(key_id)));
    let result = service.api_key_deleted(Ok(()));
    assert!(result.is_ok());
}

#[test]
fn test_delete_api_key_not_owned_by_user_fails() {
    let user_id = UserId(1);
    let key_id = ApiKeyId(2);
    let service = UserServiceImpl::new(());
    let deletion = service.delete_api_key(&user_id, &key_id);
    assert_eq!(deletion.user_id, user_id);
    let turn = deletion.keys_listed(Ok(vec![]));
    assert!(matches!(turn, Turn::Fail(UserServiceError::InvalidPermissions)));
}

#[test]
fn other_keys_of_the_user_do_not_open_a_foreign_key() {
    let user_id = UserId(1);
    let service = UserServiceImpl::new(());
    let deletion = service.delete_api_key(&user_id, &ApiKeyId(9));
    let keys = vec![make_mock_api_key(ApiKeyId(2), user_id), make_mock_api_key(ApiKeyId(3), user_id)];
    assert_eq!(deletion.keys_listed(Ok(keys)), Turn::Fail(UserServiceError::InvalidPermissions));

    let deletion = service.delete_api_key(&user_id, &ApiKeyId(3));
    let keys = vec![make_mock_api_key(ApiKeyId(2), user_id), make_mock_api_key(ApiKeyId(3), user_id)];
    assert_eq!(deletion.keys_listed(Ok(keys)), Turn::Ask(UserRequest::DeleteApiKey(ApiKeyId(3))));
}

#[test]
fn test_create_user_delegates_to_repo() {
    let req = CreateUserRequest {
        username: "alice".to_string(),
        first_name: Some("Alice".to_string()),
        last_name: None,
        password: SecretString::from("secret"),
    };
    let service = UserServiceImpl::new(());
    let asked = service.create_user(&req);
    assert_eq!(asked.username, "alice");
    assert_eq!(asked.first_name, Some("Alice".to_string()));
    assert_eq!(asked.last_name, None);
    assert_eq!(asked.password.expose_secret(), "secret");
    let result = service.user_created(Ok(mock_user()));
    assert!(result.is_ok());
    assert_eq!(result, Ok(mock_user()));
}

#[test]
fn failures_of_the_repositories_are_passed_on() {
    let service = UserServiceImpl::new(());
    let no_user = || UserRepositoryError::NotFound("1".to_string());
    let no_key = || ApiKeyRepositoryError::Unknown("down".to_string());
    assert_eq!(service.user_created(Err(no_user())), Err(UserServiceError::User(no_user())));
    assert_eq!(service.user_deleted(Err(no_user())), Err(UserServiceError::User(no_user())));
    assert_eq!(service.api_key_deleted(Err(no_key())), Err(UserServiceError::ApiKey(no_key())));
    let deletion = service.delete_api_key(&UserId(1), &ApiKeyId(2));
    assert_eq!(
        deletion.keys_listed(Err(no_key())),
        Turn::Fail(UserServiceError::ApiKey(no_key()))
    );
}
