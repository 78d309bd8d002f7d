use ccb_labs::todo_api::handler::{
    delete_todo_item_path, get_health, get_todo_item_path, get_todo_item_secret_path, get_todo_items,
    patch_todo_item_path, patch_todo_item_path_at, post_todo_item, post_todo_item_with, TodoStore,
};
use ccb_labs::todo_api::model::{Timestamp, TodoItem, TodoItemListQueryOptions, TodoItemSchemaUpdate};

fn body(title: &str, content: &str) -> TodoItem {
    TodoItem {
        id: None,
        title: title.to_string(),
        content: content.to_string(),
        completion: None,
        creation_time: None,
        update_time: None,
        secret: Some("s3".to_string()),
    }
}

fn at(secs: i64) -> Timestamp {
    Timestamp { secs, nanos: 0 }
}

#[test]
fn health() {
    let h = get_health();
    assert_eq!(h.status, "success");
    assert_eq!(h.message, "all good");
}

#[test]
fn post_then_get_returns_the_entry() {
    let mut store = TodoStore::new();
    let (code, resp) = post_todo_item_with(&mut store, body("buy", "milk"), "id-1".to_string(), at(5)).unwrap();
    assert_eq!(code, 201);
    assert_eq!(resp.status, "success");
    let dto = &resp.todo_item_data.todo_item;
    assert_eq!(dto.id, Some("id-1".to_string()));
    assert_eq!(dto.completion, Some(false));
    assert_eq!(dto.creation_time, Some(at(5)));
    assert_eq!(dto.update_time, Some(at(5)));
    let (code, got) = get_todo_item_path("id-1".to_string(), &store).unwrap();
    assert_eq!(code, 200);
    assert_eq!(got.todo_item_data.todo_item.title, "buy");
    assert_eq!(got.todo_item_data.todo_item.content, "milk");
    assert_eq!(store.len(), 1);
}

#[test]
fn duplicate_title_is_refused() {
    let mut store = TodoStore::new();
    post_todo_item_with(&mut store, body("buy", "milk"), "id-1".to_string(), at(5)).unwrap();
    let e = post_todo_item_with(&mut store, body("buy", "bread"), "id-2".to_string(), at(6)).unwrap_err();
    assert_eq!(e.status_code, 409);
    assert_eq!(e.body.status, "fail");
    assert_eq!(e.body.message, "Todo with title: 'buy' already exists");
    assert_eq!(store.len(), 1);
}

#[test]
fn post_with_fresh_id_and_clock() {
    let mut store = TodoStore::new();
    let (code, resp) = post_todo_item(&mut store, body("walk", "dog")).unwrap();
    assert_eq!(code, 201);
    let id = resp.todo_item_data.todo_item.id.clone().unwrap();
    assert_eq!(id.len(), 36);
    assert_eq!(id.chars().filter(|c| *c == '-').count(), 4);
    assert!(resp.todo_item_data.todo_item.creation_time.unwrap().secs > 1_600_000_000);
    let (_, got) = get_todo_item_path(id, &store).unwrap();
    assert_eq!(got.todo_item_data.todo_item.title, "walk");
}

#[test]
fn missing_id_is_not_found() {
    let mut store = TodoStore::new();
    let e = get_todo_item_path("nope".to_string(), &store).unwrap_err();
    assert_eq!(e.status_code, 404);
    assert_eq!(e.body.status, "fail");
    assert_eq!(e.body.message, "Todo with ID: nope not found");
    let e = delete_todo_item_path("nope".to_string(), &mut store).unwrap_err();
    assert_eq!(e.status_code, 404);
    let upd = TodoItemSchemaUpdate { title: None, content: None, completion: None, secret: None };
    let e = patch_todo_item_path("nope".to_string(), &mut store, upd).unwrap_err();
    assert_eq!(e.body.message, "Todo with ID: nope not found");
    let e = get_todo_item_secret_path("nope".to_string(), &store).unwrap_err();
    assert_eq!(e.status_code, 404);
}

#[test]
fn secret_view_shows_the_secret() {
    let mut store = TodoStore::new();
    post_todo_item_with(&mut store, body("buy", "milk"), "id-1".to_string(), at(5)).unwrap();
    let (code, resp) = get_todo_item_secret_path("id-1".to_string(), &store).unwrap();
    assert_eq!(code, 200);
    assert_eq!(resp.todo_item_data.todo_item.secret, Some("s3".to_string()));
}

#[test]
fn patch_keeps_empty_fields_and_sets_the_rest() {
    let mut store = TodoStore::new();
    post_todo_item_with(&mut store, body("buy", "milk"), "id-1".to_string(), at(5)).unwrap();
    let upd = TodoItemSchemaUpdate {
        title: Some(String::new()),
        content: Some("bread".to_string()),
        completion: Some(true),
        secret: None,
    };
    let (code, resp) = patch_todo_item_path_at("id-1".to_string(), &mut store, upd, at(9)).unwrap();
    assert_eq!(code, 200);
    let dto = &resp.todo_item_data.todo_item;
    assert_eq!(dto.title, "buy");
    assert_eq!(dto.content, "bread");
    assert_eq!(dto.completion, Some(true));
    assert_eq!(dto.creation_time, Some(at(5)));
    assert_eq!(dto.update_time, Some(at(9)));
    let (_, secret) = get_todo_item_secret_path("id-1".to_string(), &store).unwrap();
    assert_eq!(secret.todo_item_data.todo_item.secret, None);
    let upd = TodoItemSchemaUpdate { title: Some("sell".to_string()), content: None, completion: None, secret: None };
    let (_, resp) = patch_todo_item_path_at("id-1".to_string(), &mut store, upd, at(10)).unwrap();
    assert_eq!(resp.todo_item_data.todo_item.title, "sell");
    assert_eq!(resp.todo_item_data.todo_item.content, "bread");
    assert_eq!(resp.todo_item_data.todo_item.completion, Some(true));
    assert_eq!(store.len(), 1);
}

#[test]
fn delete_then_get_is_not_found() {
    let mut store = TodoStore::new();
    post_todo_item_with(&mut store, body("a", ""), "id-a".to_string(), at(1)).unwrap();
    post_todo_item_with(&mut store, body("b", ""), "id-b".to_string(), at(2)).unwrap();
    let (code, resp) = delete_todo_item_path("id-a".to_string(), &mut store).unwrap();
    assert_eq!(code, 200);
    assert_eq!(resp.status, "success");
    assert_eq!(resp.message, "Todo with ID: id-a deleted");
    assert!(get_todo_item_path("id-a".to_string(), &store).is_err());
    assert!(get_todo_item_path("id-b".to_string(), &store).is_ok());
    assert_eq!(store.len(), 1);
}

fn titles_of_page(store: &TodoStore, page: Option<usize>, limit: Option<usize>) -> Vec<String> {
    let r = get_todo_items(Some(TodoItemListQueryOptions { page, limit }), store);
    assert_eq!(r.status, "success");
    assert_eq!(r.result_count, r.todo_item_list.len());
    r.todo_item_list.iter().map(|d| d.title.clone()).collect()
}

#[test]
fn paging() {
    let mut store = TodoStore::new();
    for i in 0..25 {
        post_todo_item_with(&mut store, body(&format!("t{}", i), ""), format!("id{}", i), at(i)).unwrap();
    }
    let first = get_todo_items(None, &store);
    assert_eq!(first.page, 0);
    assert_eq!(first.result_count, 10);
    assert_eq!(first.todo_item_list[0].title, "t0");
    assert_eq!(titles_of_page(&store, Some(2), None), vec!["t20", "t21", "t22", "t23", "t24"]);
    assert_eq!(titles_of_page(&store, Some(1), Some(3)), vec!["t3", "t4", "t5"]);
    assert!(titles_of_page(&store, Some(9), Some(10)).is_empty());
    assert!(titles_of_page(&store, None, Some(0)).is_empty());
    let mut joined = titles_of_page(&store, Some(2), Some(4));
    joined.extend(titles_of_page(&store, Some(3), Some(4)));
    assert_eq!(joined, titles_of_page(&store, Some(1), Some(8)));
}

#[test]
fn all_pages_together_are_the_list() {
    for n in [0usize, 1, 7, 10, 23] {
        let mut store = TodoStore::new();
        for i in 0..n {
            post_todo_item_with(&mut store, body(&format!("t{}", i), ""), format!("id{}", i), at(i as i64)).unwrap();
        }
        for limit in [1usize, 3, 10] {
            let pages = (n + limit - 1) / limit;
            let mut all = Vec::new();
            for p in 0..pages {
                let page = titles_of_page(&store, Some(p), Some(limit));
                if p + 1 < pages {
                    assert_eq!(page.len(), limit);
                }
                all.extend(page);
            }
            let expected: Vec<String> = (0..n).map(|i| format!("t{}", i)).collect();
            assert_eq!(all, expected);
            assert!(titles_of_page(&store, Some(pages), Some(limit)).is_empty());
        }
    }
}

#[test]
fn fresh_ids_are_version_4_uuids() {
    let mut store = TodoStore::new();
    let (_, resp) = post_todo_item(&mut store, body("x", "")).unwrap();
    let id: Vec<char> = resp.todo_item_data.todo_item.id.unwrap().chars().collect();
    assert_eq!(id.len(), 36);
    for (i, c) in id.iter().enumerate() {
        if [8, 13, 18, 23].contains(&i) {
            assert_eq!(*c, '-');
        } else {
            assert!(c.is_ascii_hexdigit() && !c.is_ascii_uppercase());
        }
    }
    assert_eq!(id[14], '4');
    assert!(['8', '9', 'a', 'b'].contains(&id[19]));
    assert!(resp.todo_item_data.todo_item.creation_time.unwrap().nanos < 1_000_000_000);
}
