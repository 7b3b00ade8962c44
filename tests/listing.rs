use ruggine::lifecycle::{accept_request, create_group, create_private_chat, insert_message};
use ruggine::model::{ChatRaw, CreateUserRequest};
use ruggine::participants::{chat_from_raw, split_commas};
use ruggine::queries::get_user_chats;
use ruggine::store::{create_user, ChatStore};

fn s(x: &str) -> String {
    x.to_string()
}

fn store_with(users: &[&str]) -> ChatStore {
    let mut store = ChatStore::new();
    for u in users {
        create_user(
            &mut store,
            CreateUserRequest { username: s(u), name: s("N"), surname: s("S"), password: s("h") },
        )
        .unwrap();
    }
    store
}

#[test]
fn chats_sorted_by_last_activity() {
    let mut store = store_with(&["alice", "bob", "carol"]);
    let (ab, _) = create_private_chat(&mut store, &s("alice"), &s("bob"), 10).unwrap();
    let (ac, _) = create_private_chat(&mut store, &s("alice"), &s("carol"), 20).unwrap();
    let g = create_group(&mut store, Some(s("g")), &s("alice"), &vec![s("bob")], 30).unwrap();
    accept_request(&mut store, g, &s("bob"), 31).unwrap();
    insert_message(&mut store, ab, &s("bob"), &s("late"), false, 50).unwrap();
    let chats = get_user_chats(&store, &s("alice"));
    let ids: Vec<i64> = chats.iter().map(|c| c.id).collect();
    assert_eq!(ids, vec![ab, g, ac]);
    assert_eq!(chats[0].participants, vec![s("bob")]);
    assert_eq!(chats[1].participants, vec![s("bob")]);
    assert_eq!(chats[1].name, Some(s("g")));
    assert_eq!(chats[2].participants, vec![s("carol")]);
    let carol = get_user_chats(&store, &s("carol"));
    assert_eq!(carol.len(), 1);
    assert_eq!(carol[0].id, ac);
    assert!(get_user_chats(&store, &s("nobody")).is_empty());
}

#[test]
fn split_keeps_empty_pieces() {
    assert_eq!(split_commas(&s("a,b")), vec![s("a"), s("b")]);
    assert_eq!(split_commas(&s("")), vec![s("")]);
    assert_eq!(split_commas(&s("a,,b,")), vec![s("a"), s(""), s("b"), s("")]);
}

#[test]
fn raw_chat_participants_deduplicated_without_caller() {
    let raw = ChatRaw {
        id: 4,
        name: Some(s("g")),
        is_group: true,
        created_at: 7,
        participants: s("alice, bob,alice ,carol,bob"),
    };
    let chat = chat_from_raw(raw, &s("alice"));
    assert_eq!(chat.id, 4);
    assert_eq!(chat.name, Some(s("g")));
    assert!(chat.is_group);
    assert_eq!(chat.created_at, 7);
    assert_eq!(chat.participants, vec![s("bob"), s("carol")]);
}
