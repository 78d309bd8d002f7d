use vstd::prelude::*;
use crate::todo_api::model::{
    copy_opt_string, dto_of, Timestamp, TodoItem, TodoItemDTO, TodoItemListQueryOptions,
    TodoItemSchemaUpdate,
};
use crate::todo_api::response::{
    ErrorResponse, GenericRsponse, TodoItemData, TodoItemDataListResponse, TodoItemDataResponse,
    TodoItemDataResponseSecret, TodoItemDataSecret,
};

verus! {

/// The todo list that the handlers share.
pub struct TodoStore {
    items: Vec<TodoItem>,
}

impl View for TodoStore {
    type V = Seq<TodoItem>;

    closed spec fn view(&self) -> Seq<TodoItem> {
        self.items@
    }
}

/// Every entry of a kept list has its completion flag set.
pub open spec fn well_kept(items: Seq<TodoItem>) -> bool {
    forall|i: int| 0 <= i < items.len() ==> (#[trigger] items[i]).completion is Some
}

impl TodoStore {
    /// Every entry has its completion flag set.
    #[verifier::type_invariant]
    spec fn wf(self) -> bool {
        well_kept(self.items@)
    }

    /// An empty list.
    pub fn new() -> (s: Self)
        ensures
            s@ == Seq::<TodoItem>::empty(),
    {
        TodoStore { items: Vec::new() }
    }

    /// The number of entries.
    pub fn len(&self) -> (n: usize)
        ensures
            n == self@.len(),
    {
        self.items.len()
    }
}

/// Whether an entry carries the id `id`.
pub open spec fn has_id(item: TodoItem, id: Seq<char>) -> bool {
    match item.id {
        Some(x) => x@ == id,
        None => false,
    }
}

/// Whether `i` is the first position of an entry with the id `id`.
pub open spec fn is_first_with_id(items: Seq<TodoItem>, id: Seq<char>, i: int) -> bool {
    &&& 0 <= i < items.len()
    &&& has_id(items[i], id)
    &&& forall|j: int| 0 <= j < i ==> !has_id(#[trigger] items[j], id)
}

/// The first position of an entry with the id `id`, if any.
pub open spec fn position_of_id(items: Seq<TodoItem>, id: Seq<char>) -> Option<int> {
    if exists|i: int| is_first_with_id(items, id, i) {
        Some(choose|i: int| is_first_with_id(items, id, i))
    } else {
        None
    }
}

/// Whether `i` is the first position of an entry titled `title`.
pub open spec fn is_first_with_title(items: Seq<TodoItem>, title: Seq<char>, i: int) -> bool {
    &&& 0 <= i < items.len()
    &&& items[i].title@ == title
    &&& forall|j: int| 0 <= j < i ==> (#[trigger] items[j]).title@ != title
}

/// The first position of an entry titled `title`, if any.
pub open spec fn position_of_title(items: Seq<TodoItem>, title: Seq<char>) -> Option<int> {
    if exists|i: int| is_first_with_title(items, title, i) {
        Some(choose|i: int| is_first_with_title(items, title, i))
    } else {
        None
    }
}

pub proof fn lemma_first_id_is_position(items: Seq<TodoItem>, id: Seq<char>, i: int)
    requires
        is_first_with_id(items, id, i),
    ensures
        position_of_id(items, id) == Some(i),
{
    let k = choose|k: int| is_first_with_id(items, id, k);
    if k < i {
        assert(!has_id(items[k], id));
    } else if k > i {
        assert(!has_id(items[i], id));
    }
}

pub proof fn lemma_first_title_is_position(items: Seq<TodoItem>, title: Seq<char>, i: int)
    requires
        is_first_with_title(items, title, i),
    ensures
        position_of_title(items, title) == Some(i),
{
    let k = choose|k: int| is_first_with_title(items, title, k);
    if k < i {
        assert(items[k].title@ != title);
    } else if k > i {
        assert(items[i].title@ != title);
    }
}

/// The page size asked for (10 when none is given).
pub open spec fn list_limit(options: Option<TodoItemListQueryOptions>) -> usize {
    match options {
        Some(o) => match o.limit {
            Some(l) => l,
            None => 10,
        },
        None => 10,
    }
}

/// The page number asked for (0 when none is given).
pub open spec fn list_page(options: Option<TodoItemListQueryOptions>) -> usize {
    match options {
        Some(o) => match o.page {
            Some(p) => p,
            None => 0,
        },
        None => 0,
    }
}

/// At most `limit` entries from position `offset` on, without their secrets.
pub open spec fn page_window(items: Seq<TodoItem>, offset: int, limit: int) -> Seq<TodoItemDTO> {
    let start = if offset < items.len() { offset } else { items.len() as int };
    let end = if start + limit < items.len() { start + limit } else { items.len() as int };
    items.subrange(start, end).map_values(|it: TodoItem| dto_of(it))
}

/// A new entry as it is stored: the request body with the id, the
/// completion flag cleared and both times set.
pub open spec fn posted(body: TodoItem, id: String, now: Timestamp) -> TodoItem {
    TodoItem {
        id: Some(id),
        completion: Some(false),
        creation_time: Some(now),
        update_time: Some(now),
        ..body
    }
}

/// An entry after a patch: a non-empty title or content of the patch
/// replaces the old one, a given completion flag replaces the old one, the
/// secret is the patch's, and the update time is `now`.
pub open spec fn patched(old: TodoItem, body: TodoItemSchemaUpdate, now: Timestamp) -> TodoItem {
    TodoItem {
        id: old.id,
        title: match body.title {
            Some(t) => if t@.len() > 0 { t } else { old.title },
            None => old.title,
        },
        content: match body.content {
            Some(c) => if c@.len() > 0 { c } else { old.content },
            None => old.content,
        },
        completion: match body.completion {
            Some(c) => Some(c),
            None => old.completion,
        },
        creation_time: old.creation_time,
        update_time: Some(now),
        secret: body.secret,
    }
}

/// The message of a refused post.
pub open spec fn title_taken_message(title: Seq<char>) -> Seq<char> {
    "Todo with title: '"@ + title + "' already exists"@
}

/// The message for an id that no entry carries.
pub open spec fn id_missing_message(id: Seq<char>) -> Seq<char> {
    "Todo with ID: "@ + id + " not found"@
}

/// The message of a done deletion.
pub open spec fn deleted_message(id: Seq<char>) -> Seq<char> {
    "Todo with ID: "@ + id + " deleted"@
}

fn find_by_id(items: &Vec<TodoItem>, id: &String) -> (r: Option<usize>)
    ensures
        match r {
            Some(i) => position_of_id(items@, id@) == Some(i as int),
            None => position_of_id(items@, id@) is None,
        },
{
    let mut i: usize = 0;
    while i < items.len()
        invariant
            i <= items.len(),
            forall|j: int| 0 <= j < i ==> !has_id(#[trigger] items@[j], id@),
        decreases items.len() - i,
    {
        let found = match &items[i].id {
            Some(x) => x.eq(id),
            None => false,
        };
        assert(found == has_id(items@[i as int], id@));
        if found {
            proof {
                lemma_first_id_is_position(items@, id@, i as int);
            }
            return Some(i);
        }
        i = i + 1;
    }
    None
}

fn find_by_title(items: &Vec<TodoItem>, title: &String) -> (r: Option<usize>)
    ensures
        match r {
            Some(i) => position_of_title(items@, title@) == Some(i as int),
            None => position_of_title(items@, title@) is None,
        },
{
    let mut i: usize = 0;
    while i < items.len()
        invariant
            i <= items.len(),
            forall|j: int| 0 <= j < i ==> (#[trigger] items@[j]).title@ != title@,
        decreases items.len() - i,
    {
        if items[i].title == *title {
            proof {
                lemma_first_title_is_position(items@, title@, i as int);
            }
            return Some(i);
        }
        i = i + 1;
    }
    None
}

fn text(s: &str) -> (r: String)
    ensures
        r@ == s@,
{
    String::from_str(s)
}

fn refusal(status_code: u16, message: String) -> (e: ErrorResponse)
    ensures
        e.status_code == status_code,
        e.body.status@ == "fail"@,
        e.body.message == message,
{
    ErrorResponse { status_code, body: GenericRsponse { status: text("fail"), message } }
}

fn id_missing(id: &String) -> (e: ErrorResponse)
    ensures
        e.status_code == 404,
        e.body.status@ == "fail"@,
        e.body.message@ == id_missing_message(id@),
{
    let mut m = text("Todo with ID: ");
    m.append(id.as_str());
    m.append(" not found");
    refusal(404, m)
}

/// Whether `c` is a lowercase hexadecimal digit.
pub open spec fn is_lower_hex(c: char) -> bool {
    ('0' <= c && c <= '9') || ('a' <= c && c <= 'f')
}

/// Whether `s` is a version-4 UUID in hyphenated lowercase form, such as
/// `67e55044-10b1-426f-9247-bb680e5fe0c8`: 36 characters, hyphens at
/// positions 8, 13, 18 and 23, lowercase hexadecimal digits elsewhere, the
/// version digit `4` at position 14 and one of `8`, `9`, `a`, `b` (the
/// RFC 4122 variant) at position 19.
pub open spec fn is_v4_uuid_text(s: Seq<char>) -> bool {
    &&& s.len() == 36
    &&& forall|i: int|
        0 <= i < 36 ==> if i == 8 || i == 13 || i == 18 || i == 23 {
            s[i] == '-'
        } else {
            is_lower_hex(#[trigger] s[i])
        }
    &&& s[14] == '4'
    &&& (s[19] == '8' || s[19] == '9' || s[19] == 'a' || s[19] == 'b')
}

/// `uuid::Uuid::new_v4` followed by its `Display` form (`to_string`): a
/// random version-4 UUID (the version and variant bits are set, the other
/// bits random) written in the hyphenated lowercase form. Which of those
/// UUIDs comes out is not stated: it is random.
#[verifier::external_body]
fn new_uuid_string() -> (s: String)
    ensures
        is_v4_uuid_text(s@),
{
    uuid::Uuid::new_v4().to_string()
}

/// `chrono::Utc::now` converted by `timestamp` and `timestamp_subsec_nanos`:
/// the current time, whose nanoseconds come from a duration since the
/// epoch and so stay below one second. Which time it is the clock decides
/// and is not stated.
#[verifier::external_body]
fn utc_now() -> (t: Timestamp)
    ensures
        t.nanos < 1_000_000_000,
{
    let now = chrono::Utc::now();
    Timestamp { secs: now.timestamp(), nanos: now.timestamp_subsec_nanos() }
}

/// The health answer.
pub fn get_health() -> (r: GenericRsponse)
    ensures
        r.status@ == "success"@,
        r.message@ == "all good"@,
{
    GenericRsponse { status: text("success"), message: text("all good") }
}

/// One page of the list, without secrets: page `page` of size `limit`
/// (defaults 0 and 10), that is, at most `limit` entries from position
/// `page * limit` on.
pub fn get_todo_items(options: Option<TodoItemListQueryOptions>, store: &TodoStore) -> (r:
    TodoItemDataListResponse)
    requires
        list_page(options) * list_limit(options) <= usize::MAX,
    ensures
        r.status@ == "success"@,
        r.page == list_page(options),
        r.result_count == r.todo_item_list@.len(),
        r.todo_item_list@ == page_window(
            store@,
            list_page(options) * list_limit(options),
            list_limit(options) as int,
        ),
{
    let (limit, page) = match options {
        Some(o) => (
            match o.limit {
                Some(l) => l,
                None => 10,
            },
            match o.page {
                Some(p) => p,
                None => 0,
            },
        ),
        None => (10, 0),
    };
    let offset = page * limit;
    let n = store.items.len();
    let start = if offset < n {
        offset
    } else {
        n
    };
    let end = if limit < n - start {
        start + limit
    } else {
        n
    };
    let mut list: Vec<TodoItemDTO> = Vec::new();
    let mut i = start;
    while i < end
        invariant
            start <= i <= end <= n == store.items@.len(),
            list@ == store.items@.subrange(start as int, i as int).map_values(|it: TodoItem| dto_of(it)),
        decreases end - i,
    {
        let d = store.items[i].to_dto();
        list.push(d);
        assert(list@ =~= store.items@.subrange(start as int, i + 1).map_values(|it: TodoItem| dto_of(it)));
        i = i + 1;
    }
    let count = list.len();
    TodoItemDataListResponse { status: text("success"), page, result_count: count, todo_item_list: list }
}

/// Adds an entry with the given id and time unless an entry with the same
/// title exists: then the request is refused with 409 and the list is left
/// as it was.
pub fn post_todo_item_with(store: &mut TodoStore, body: TodoItem, id: String, now: Timestamp) -> (r:
    Result<(u16, TodoItemDataResponse), ErrorResponse>)
    ensures
        r is Ok <==> position_of_title(old(store)@, body.title@) is None,
        match r {
            Ok((code, resp)) => {
                &&& code == 201
                &&& final(store)@ == old(store)@.push(posted(body, id, now))
                &&& resp.status@ == "success"@
                &&& resp.todo_item_data.todo_item == dto_of(posted(body, id, now))
            },
            Err(e) => {
                &&& final(store)@ == old(store)@
                &&& e.status_code == 409
                &&& e.body.status@ == "fail"@
                &&& e.body.message@ == title_taken_message(body.title@)
            },
        },
{
    proof {
        use_type_invariant(&*store);
    }
    match find_by_title(&store.items, &body.title) {
        Some(i) => {
            let mut m = text("Todo with title: '");
            m.append(store.items[i].title.as_str());
            m.append("' already exists");
            return Err(refusal(409, m));
        },
        None => {},
    }
    let item = TodoItem {
        id: Some(id),
        completion: Some(false),
        creation_time: Some(now),
        update_time: Some(now),
        ..body
    };
    let dto = item.to_dto();
    let mut items: Vec<TodoItem> = Vec::new();
    std::mem::swap(&mut items, &mut store.items);
    items.push(item);
    store.items = items;
    Ok((201, TodoItemDataResponse { status: text("success"), todo_item_data: TodoItemData { todo_item: dto } }))
}

/// Adds an entry with a fresh random id, stamped with the current time,
/// unless an entry with the same title exists (then 409, list unchanged).
pub fn post_todo_item(store: &mut TodoStore, body: TodoItem) -> (r: Result<
    (u16, TodoItemDataResponse),
    ErrorResponse,
>)
    ensures
        r is Ok <==> position_of_title(old(store)@, body.title@) is None,
        match r {
            Ok((code, resp)) => exists|id: String, now: Timestamp|
                {
                    &&& is_v4_uuid_text(id@)
                    &&& now.nanos < 1_000_000_000
                    &&& code == 201
                    &&& final(store)@ == old(store)@.push(posted(body, id, now))
                    &&& resp.status@ == "success"@
                    &&& resp.todo_item_data.todo_item == dto_of(posted(body, id, now))
                },
            Err(e) => {
                &&& final(store)@ == old(store)@
                &&& e.status_code == 409
                &&& e.body.status@ == "fail"@
                &&& e.body.message@ == title_taken_message(body.title@)
            },
        },
{
    let id = new_uuid_string();
    let now = utc_now();
    post_todo_item_with(store, body, id, now)
}

/// The entry with the id `id`, without its secret; 404 when none has it.
pub fn get_todo_item_path(id: String, store: &TodoStore) -> (r: Result<
    (u16, TodoItemDataResponse),
    ErrorResponse,
>)
    ensures
        match position_of_id(store@, id@) {
            Some(i) => r matches Ok((code, resp)) && code == 200 && resp.status@ == "success"@
                && resp.todo_item_data.todo_item == dto_of(store@[i]),
            None => r matches Err(e) && e.status_code == 404 && e.body.status@ == "fail"@
                && e.body.message@ == id_missing_message(id@),
        },
{
    match find_by_id(&store.items, &id) {
        Some(i) => {
            let dto = store.items[i].to_dto();
            Ok((200, TodoItemDataResponse { status: text("success"), todo_item_data: TodoItemData { todo_item: dto } }))
        },
        None => Err(id_missing(&id)),
    }
}

/// The entry with the id `id`, with its secret; 404 when none has it.
pub fn get_todo_item_secret_path(id: String, store: &TodoStore) -> (r: Result<
    (u16, TodoItemDataResponseSecret),
    ErrorResponse,
>)
    ensures
        match position_of_id(store@, id@) {
            Some(i) => r matches Ok((code, resp)) && code == 200 && resp.status@ == "success"@
                && resp.todo_item_data.todo_item == store@[i],
            None => r matches Err(e) && e.status_code == 404 && e.body.status@ == "fail"@
                && e.body.message@ == id_missing_message(id@),
        },
{
    match find_by_id(&store.items, &id) {
        Some(i) => {
            let item = store.items[i].clone();
            Ok((200, TodoItemDataResponseSecret { status: text("success"), todo_item_data: TodoItemDataSecret { todo_item: item } }))
        },
        None => Err(id_missing(&id)),
    }
}

/// Patches the first entry with the id `id` as `patched` says, with `now`
/// as its update time; 404 and no change when no entry has the id.
pub fn patch_todo_item_path_at(id: String, store: &mut TodoStore, body: TodoItemSchemaUpdate, now: Timestamp) -> (r:
    Result<(u16, TodoItemDataResponse), ErrorResponse>)
    ensures
        match position_of_id(old(store)@, id@) {
            Some(i) => {
                &&& final(store)@ == old(store)@.update(i, patched(old(store)@[i], body, now))
                &&& r matches Ok((code, resp)) && code == 200 && resp.status@ == "success"@
                    && resp.todo_item_data.todo_item == dto_of(patched(old(store)@[i], body, now))
            },
            None => {
                &&& final(store)@ == old(store)@
                &&& r matches Err(e) && e.status_code == 404 && e.body.status@ == "fail"@
                    && e.body.message@ == id_missing_message(id@)
            },
        },
{
    proof {
        use_type_invariant(&*store);
    }
    match find_by_id(&store.items, &id) {
        Some(i) => {
            let todo = &store.items[i];
            let title = match &body.title {
                Some(t) => t.clone(),
                None => todo.title.clone(),
            };
            let content = match &body.content {
                Some(c) => c.clone(),
                None => todo.content.clone(),
            };
            let stored = todo.completion.unwrap();
            let completed = match body.completion {
                Some(c) => c,
                None => stored,
            };
            let payload = TodoItem {
                id: copy_opt_string(&todo.id),
                title: if !title.as_str().is_empty() {
                    title
                } else {
                    todo.title.clone()
                },
                content: if !content.as_str().is_empty() {
                    content
                } else {
                    todo.content.clone()
                },
                completion: Some(completed),
                creation_time: todo.creation_time,
                update_time: Some(now),
                secret: body.secret,
            };
            let dto = payload.to_dto();
            let mut items: Vec<TodoItem> = Vec::new();
            std::mem::swap(&mut items, &mut store.items);
            items.set(i, payload);
            store.items = items;
            Ok((200, TodoItemDataResponse { status: text("success"), todo_item_data: TodoItemData { todo_item: dto } }))
        },
        None => Err(id_missing(&id)),
    }
}

/// Patches the first entry with the id `id`, stamped with the current time;
/// 404 and no change when no entry has the id.
pub fn patch_todo_item_path(id: String, store: &mut TodoStore, body: TodoItemSchemaUpdate) -> (r:
    Result<(u16, TodoItemDataResponse), ErrorResponse>)
    ensures
        match position_of_id(old(store)@, id@) {
            Some(i) => exists|now: Timestamp|
                {
                    &&& now.nanos < 1_000_000_000
                    &&& final(store)@ == old(store)@.update(i, patched(old(store)@[i], body, now))
                    &&& r matches Ok((code, resp)) && code == 200 && resp.status@ == "success"@
                        && resp.todo_item_data.todo_item == dto_of(patched(old(store)@[i], body, now))
                },
            None => {
                &&& final(store)@ == old(store)@
                &&& r matches Err(e) && e.status_code == 404 && e.body.status@ == "fail"@
                    && e.body.message@ == id_missing_message(id@)
            },
        },
{
    let now = utc_now();
    patch_todo_item_path_at(id, store, body, now)
}

/// Removes the first entry with the id `id`; 404 and no change when no
/// entry has it.
pub fn delete_todo_item_path(id: String, store: &mut TodoStore) -> (r: Result<
    (u16, GenericRsponse),
    ErrorResponse,
>)
    ensures
        match position_of_id(old(store)@, id@) {
            Some(i) => {
                &&& final(store)@ == old(store)@.remove(i)
                &&& r matches Ok((code, resp)) && code == 200 && resp.status@ == "success"@
                    && resp.message@ == deleted_message(id@)
            },
            None => {
                &&& final(store)@ == old(store)@
                &&& r matches Err(e) && e.status_code == 404 && e.body.status@ == "fail"@
                    && e.body.message@ == id_missing_message(id@)
            },
        },
{
    proof {
        use_type_invariant(&*store);
    }
    match find_by_id(&store.items, &id) {
        Some(i) => {
            let mut items: Vec<TodoItem> = Vec::new();
            std::mem::swap(&mut items, &mut store.items);
            items.remove(i);
            store.items = items;
            let mut m = text("Todo with ID: ");
            m.append(id.as_str());
            m.append(" deleted");
            Ok((200, GenericRsponse { status: text("success"), message: m }))
        },
        None => Err(id_missing(&id)),
    }
}

} // verus!
