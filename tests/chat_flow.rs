use ruggine::error::MyError;
use ruggine::lifecycle::{
    accept_request, create_group, create_private_chat, delete_request, insert_message,
    insert_requests_per_user, joined, leave_group,
};
use ruggine::model::CreateUserRequest;
use ruggine::pipeline::send_message;
use ruggine::queries::{chat_participants, get_messages_for_chat, get_requests_for_user};
use ruggine::registry::ConnectionRegistry;
use ruggine::store::{create_user, ChatStore};

fn s(x: &str) -> String {
    x.to_string()
}

fn store_with(users: &[&str]) -> ChatStore {
    let mut store = ChatStore::new();
    for u in users {
        let r = create_user(
            &mut store,
            CreateUserRequest { username: s(u), name: s("N"), surname: s("S"), password: s("hash") },
        );
        assert_eq!(r, Ok(()));
    }
    store
}

fn has_request(store: &ChatStore, chat: i64, user: &str) -> bool {
    store.requests.iter().any(|q| q.chat_id == chat && q.to_user == user)
}

#[test]
fn duplicate_username_is_refused() {
    let mut store = store_with(&["alice"]);
    let r = create_user(
        &mut store,
        CreateUserRequest { username: s("alice"), name: s("A"), surname: s("B"), password: s("x") },
    );
    assert_eq!(r, Err(MyError::UsernameExists));
    assert_eq!(store.users.len(), 1);
}

#[test]
fn private_chat_twice_returns_same_chat() {
    let mut store = store_with(&["alice", "bob"]);
    let first = create_private_chat(&mut store, &s("alice"), &s("bob"), 10).unwrap();
    assert_eq!(first.1, false);
    let chats = store.chats.len();
    let members = store.memberships.len();
    let messages = store.messages.len();
    let second = create_private_chat(&mut store, &s("alice"), &s("bob"), 20).unwrap();
    assert_eq!(second, (first.0, true));
    assert_eq!(store.chats.len(), chats);
    assert_eq!(store.memberships.len(), members);
    assert_eq!(store.messages.len(), messages);
    let reversed = create_private_chat(&mut store, &s("bob"), &s("alice"), 30).unwrap();
    assert_eq!(reversed, (first.0, true));
}

#[test]
fn private_chat_records_opening_message() {
    let mut store = store_with(&["alice", "bob"]);
    let (id, _) = create_private_chat(&mut store, &s("alice"), &s("bob"), 10).unwrap();
    assert_eq!(store.messages.len(), 1);
    assert_eq!(store.messages[0].chat_id, id);
    assert_eq!(store.messages[0].msg, "alice started a private chat with bob");
    assert!(store.messages[0].is_auto);
    assert_eq!(store.messages[0].send_at, 10);
}

#[test]
fn private_chat_with_unknown_user_fails() {
    let mut store = store_with(&["alice"]);
    assert_eq!(create_private_chat(&mut store, &s("alice"), &s("ghost"), 1), Err(MyError::UserNotFound));
    assert!(store.chats.is_empty());
}

#[test]
fn private_chat_with_oneself_fails() {
    let mut store = store_with(&["alice"]);
    assert_eq!(
        create_private_chat(&mut store, &s("alice"), &s("alice"), 1),
        Err(MyError::UserAlreadyInGroup)
    );
    assert!(store.chats.is_empty());
}

#[test]
fn send_from_non_member_writes_nothing() {
    let mut store = store_with(&["alice", "bob", "carol"]);
    let (id, _) = create_private_chat(&mut store, &s("alice"), &s("bob"), 1).unwrap();
    let registry = ConnectionRegistry::new();
    let before = store.messages.len();
    let r = send_message(&mut store, &registry, id, &s("carol"), &s("hi"), false, 2);
    assert!(matches!(r, Err(MyError::UserDoesNotBelongToGroup)));
    assert_eq!(store.messages.len(), before);
    let r = insert_message(&mut store, id, &s("carol"), &s("hi"), false, 2);
    assert!(matches!(r, Err(MyError::UserDoesNotBelongToGroup)));
    assert_eq!(store.messages.len(), before);
}

fn group_of(store: &mut ChatStore, members: &[&str]) -> i64 {
    let creator = s(members[0]);
    let others: Vec<String> = members[1..].iter().map(|m| s(m)).collect();
    let id = create_group(store, Some(s("team")), &creator, &others, 1).unwrap();
    for m in &others {
        accept_request(store, id, m, 2).unwrap();
    }
    id
}

#[test]
fn leaving_two_member_group_keeps_chat() {
    let mut store = store_with(&["alice", "bob"]);
    let id = group_of(&mut store, &["alice", "bob"]);
    let history = get_messages_for_chat(&store, id, &s("alice")).unwrap().len();
    assert_eq!(leave_group(&mut store, id, &s("bob"), 5), Ok(()));
    assert_eq!(chat_participants(&store, id), vec![s("alice")]);
    assert!(store.chats.iter().any(|c| c.id == id));
    let after = get_messages_for_chat(&store, id, &s("alice")).unwrap();
    assert_eq!(after.len(), history + 1);
    assert_eq!(after.last().unwrap().msg, "bob has left the group");
}

#[test]
fn last_member_leaving_deletes_everything() {
    let mut store = store_with(&["alice", "bob", "carol"]);
    let id = group_of(&mut store, &["alice", "bob"]);
    insert_requests_per_user(&mut store, id, &s("alice"), &vec![s("carol")]).unwrap();
    assert_eq!(leave_group(&mut store, id, &s("bob"), 5), Ok(()));
    assert_eq!(leave_group(&mut store, id, &s("alice"), 6), Ok(()));
    assert!(!store.chats.iter().any(|c| c.id == id));
    assert!(!store.memberships.iter().any(|m| m.chat_id == id));
    assert!(!store.messages.iter().any(|m| m.chat_id == id));
    assert!(!store.requests.iter().any(|q| q.chat_id == id));
}

#[test]
fn leave_errors() {
    let mut store = store_with(&["alice", "bob", "carol"]);
    let (private, _) = create_private_chat(&mut store, &s("alice"), &s("bob"), 1).unwrap();
    assert_eq!(leave_group(&mut store, private, &s("alice"), 2), Err(MyError::ChatNotFound));
    assert_eq!(leave_group(&mut store, 999, &s("alice"), 2), Err(MyError::ChatNotFound));
    let id = group_of(&mut store, &["alice", "bob"]);
    assert_eq!(leave_group(&mut store, id, &s("carol"), 2), Err(MyError::UserDoesNotBelongToGroup));
}

#[test]
fn invite_mixed_list() {
    let mut store = store_with(&["alice", "bob", "carol"]);
    let id = group_of(&mut store, &["alice", "bob"]);
    let before = store.requests.len();
    let r = insert_requests_per_user(&mut store, id, &s("alice"), &vec![s("carol"), s("nobody"), s("bob")]);
    assert_eq!(r, Ok(vec![s("nobody")]));
    assert_eq!(store.requests.len(), before + 1);
    assert!(has_request(&store, id, "carol"));
    assert!(!has_request(&store, id, "bob"));
}

#[test]
fn invite_failures() {
    let mut store = store_with(&["alice", "bob", "carol"]);
    let id = group_of(&mut store, &["alice", "bob"]);
    let r = insert_requests_per_user(&mut store, id, &s("alice"), &vec![s("nobody"), s("bob")]);
    assert_eq!(r, Err(MyError::UserNotFound));
    let r = insert_requests_per_user(&mut store, id, &s("carol"), &vec![s("carol")]);
    assert_eq!(r, Err(MyError::UserDoesNotBelongToGroup));
    let (private, _) = create_private_chat(&mut store, &s("alice"), &s("bob"), 1).unwrap();
    let r = insert_requests_per_user(&mut store, private, &s("alice"), &vec![s("carol")]);
    assert_eq!(r, Err(MyError::ChatNotFound));
    assert!(store.requests.is_empty());
}

#[test]
fn broadcast_reaches_only_live_connections() {
    let mut store = store_with(&["a", "b", "c"]);
    let id = group_of(&mut store, &["a", "b", "c"]);
    let mut registry = ConnectionRegistry::new();
    let ha = registry.register(&s("a"));
    let hc1 = registry.register(&s("c"));
    let hc2 = registry.register(&s("c"));
    let d = send_message(&mut store, &registry, id, &s("a"), &s("hello"), false, 9).unwrap();
    assert_eq!(d.targets, vec![ha, hc1, hc2]);
    assert_eq!(d.message.msg, "hello");
    assert_eq!(d.message.from_user, "a");
    assert_eq!(d.message.send_at, 9);
    let history = get_messages_for_chat(&store, id, &s("b")).unwrap();
    assert_eq!(history.last().unwrap().id, d.message.id);
}

#[test]
fn unregister_removes_one_channel() {
    let mut registry = ConnectionRegistry::new();
    let h1 = registry.register(&s("a"));
    let h2 = registry.register(&s("a"));
    assert!(registry.unregister(&s("a"), h1));
    assert!(!registry.unregister(&s("a"), h1));
    assert!(!registry.unregister(&s("b"), h2));
    assert_eq!(registry.channels_for(&s("a")), vec![h2]);
    assert!(registry.unregister(&s("a"), h2));
    assert!(registry.channels_for(&s("a")).is_empty());
    assert!(registry.connections.is_empty());
    assert!(registry.broadcast_to(&vec![s("a")]).is_empty());
}

#[test]
fn accept_then_decline_is_noop() {
    let mut store = store_with(&["alice", "bob"]);
    let id = create_group(&mut store, None, &s("alice"), &vec![s("bob")], 1).unwrap();
    assert_eq!(get_requests_for_user(&store, &s("bob")).len(), 1);
    assert_eq!(accept_request(&mut store, id, &s("bob"), 2), Ok(()));
    let members = store.memberships.len();
    let messages = store.messages.len();
    assert!(!delete_request(&mut store, id, &s("bob")));
    assert_eq!(store.memberships.len(), members);
    assert_eq!(store.messages.len(), messages);
    assert_eq!(store.messages.last().unwrap().msg, "bob joined the group");
}

#[test]
fn decline_removes_invitation() {
    let mut store = store_with(&["alice", "bob"]);
    let id = create_group(&mut store, Some(s("g")), &s("alice"), &vec![s("bob")], 1).unwrap();
    let listed = get_requests_for_user(&store, &s("bob"));
    assert_eq!(listed.len(), 1);
    assert_eq!(listed[0].chat_id, id);
    assert_eq!(listed[0].from, "alice");
    assert_eq!(listed[0].name, "g");
    assert!(delete_request(&mut store, id, &s("bob")));
    assert!(get_requests_for_user(&store, &s("bob")).is_empty());
    assert_eq!(accept_request(&mut store, id, &s("bob"), 2), Err(MyError::UserAlreadyInGroup));
}

#[test]
fn create_group_announces_and_invites() {
    let mut store = store_with(&["alice", "bob"]);
    let id = create_group(&mut store, Some(s("g")), &s("alice"), &vec![s("alice"), s("bob"), s("bob"), s("zed")], 3).unwrap();
    assert_eq!(chat_participants(&store, id), vec![s("alice")]);
    assert_eq!(store.requests.len(), 1);
    assert!(has_request(&store, id, "bob"));
    assert_eq!(store.messages.last().unwrap().msg, "alice created the group");
    assert_eq!(store.chats.last().unwrap().created_at, 3);
    assert!(store.chats.last().unwrap().is_group);
}

#[test]
fn create_group_with_only_unknown_users_fails() {
    let mut store = store_with(&["alice"]);
    let r = create_group(&mut store, None, &s("alice"), &vec![s("zed")], 3);
    assert_eq!(r, Err(MyError::UserNotFound));
    assert!(store.chats.is_empty());
    let alone = create_group(&mut store, None, &s("alice"), &vec![], 3).unwrap();
    assert_eq!(chat_participants(&store, alone), vec![s("alice")]);
}

#[test]
fn history_requires_membership() {
    let mut store = store_with(&["alice", "bob", "carol"]);
    let (id, _) = create_private_chat(&mut store, &s("alice"), &s("bob"), 1).unwrap();
    insert_message(&mut store, id, &s("bob"), &s("one"), false, 2).unwrap();
    insert_message(&mut store, id, &s("alice"), &s("two"), false, 3).unwrap();
    let h = get_messages_for_chat(&store, id, &s("bob")).unwrap();
    assert_eq!(h.iter().map(|m| m.msg.as_str()).collect::<Vec<_>>(), vec!["alice started a private chat with bob", "one", "two"]);
    assert!(h.windows(2).all(|w| w[0].id < w[1].id));
    assert!(matches!(get_messages_for_chat(&store, id, &s("carol")), Err(MyError::UserDoesNotBelongToGroup)));
}

#[test]
fn joined_concatenates() {
    assert_eq!(joined(&s("ab"), "cd"), "abcd");
}

#[test]
fn error_texts() {
    assert_eq!(MyError::UserNotFound.message(), "User not found");
    assert_eq!(MyError::UserDoesNotBelongToGroup.message(), "User doesn't belong to this group");
}

#[test]
fn stored_hash_lookup() {
    let store = store_with(&["alice"]);
    assert_eq!(ruggine::store::password_hash_of(&store, &s("alice")), Some(s("hash")));
    assert_eq!(ruggine::store::password_hash_of(&store, &s("bob")), None);
}

#[test]
fn every_chat_keeps_a_member() {
    let mut store = store_with(&["a", "b", "c"]);
    let g1 = group_of(&mut store, &["a", "b", "c"]);
    let g2 = group_of(&mut store, &["b", "c"]);
    create_private_chat(&mut store, &s("a"), &s("c"), 3).unwrap();
    leave_group(&mut store, g1, &s("a"), 4).unwrap();
    leave_group(&mut store, g1, &s("b"), 5).unwrap();
    leave_group(&mut store, g2, &s("c"), 6).unwrap();
    leave_group(&mut store, g2, &s("b"), 7).unwrap();
    for chat in &store.chats {
        assert!(store.memberships.iter().any(|m| m.chat_id == chat.id));
    }
    assert_eq!(store.chats.len(), 2);
    assert_eq!(chat_participants(&store, g1), vec![s("c")]);
}
