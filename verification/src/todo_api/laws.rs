use vstd::prelude::*;
use crate::todo_api::handler::{
    has_id, is_first_with_id, list_limit, list_page, is_first_with_title, lemma_first_id_is_position,
    lemma_first_title_is_position, page_window, patched, position_of_id, position_of_title,
    posted,
};
use crate::todo_api::model::{
    dto_of, Timestamp, TodoItem, TodoItemDTO, TodoItemListQueryOptions, TodoItemSchemaUpdate,
};

verus! {

/// Some entry carries the id: then there is a first one that does.
pub proof fn lemma_some_id_has_first(items: Seq<TodoItem>, id: Seq<char>, j: int)
    requires
        0 <= j < items.len(),
        has_id(items[j], id),
    ensures
        exists|k: int| is_first_with_id(items, id, k),
    decreases j,
{
    if exists|m: int| 0 <= m < j && has_id(#[trigger] items[m], id) {
        let m = choose|m: int| 0 <= m < j && has_id(#[trigger] items[m], id);
        lemma_some_id_has_first(items, id, m);
    } else {
        assert(is_first_with_id(items, id, j));
    }
}

/// Some entry carries the title: then there is a first one that does.
pub proof fn lemma_some_title_has_first(items: Seq<TodoItem>, title: Seq<char>, j: int)
    requires
        0 <= j < items.len(),
        items[j].title@ == title,
    ensures
        exists|k: int| is_first_with_title(items, title, k),
    decreases j,
{
    if exists|m: int| 0 <= m < j && (#[trigger] items[m]).title@ == title {
        let m = choose|m: int| 0 <= m < j && (#[trigger] items[m]).title@ == title;
        lemma_some_title_has_first(items, title, m);
    } else {
        assert(is_first_with_title(items, title, j));
    }
}

/// Read after write: once an entry is posted with an id that no entry had,
/// looking that id up finds the new entry (the last one).
pub proof fn law_get_finds_posted_entry(items: Seq<TodoItem>, body: TodoItem, id: String, now: Timestamp)
    requires
        position_of_id(items, id@) is None,
    ensures
        position_of_id(items.push(posted(body, id, now)), id@) == Some(items.len() as int),
        items.push(posted(body, id, now))[items.len() as int] == posted(body, id, now),
        ({
            let e = items.push(posted(body, id, now))[items.len() as int];
            &&& e.id == Some(id)
            &&& e.completion == Some(false)
            &&& e.creation_time == Some(now)
            &&& e.update_time == Some(now)
            &&& e.title == body.title
            &&& e.content == body.content
            &&& e.secret == body.secret
        }),
{
    let after = items.push(posted(body, id, now));
    let n = items.len() as int;
    assert forall|j: int| 0 <= j < n implies !has_id(#[trigger] after[j], id@) by {
        assert(after[j] == items[j]);
        if has_id(items[j], id@) {
            lemma_some_id_has_first(items, id@, j);
        }
    }
    assert(is_first_with_id(after, id@, n));
    lemma_first_id_is_position(after, id@, n);
}

/// A title, once posted, is taken: a later post with the same title is
/// refused.
pub proof fn law_posted_title_is_taken(items: Seq<TodoItem>, body: TodoItem, id: String, now: Timestamp, title: Seq<char>)
    requires
        title == body.title@,
    ensures
        position_of_title(items.push(posted(body, id, now)), title) is Some,
{
    let after = items.push(posted(body, id, now));
    let n = items.len() as int;
    if forall|j: int| 0 <= j < n ==> (#[trigger] after[j]).title@ != title {
        assert(is_first_with_title(after, title, n));
        lemma_first_title_is_position(after, title, n);
    } else {
        let j = choose|j: int| 0 <= j < n && (#[trigger] after[j]).title@ == title;
        lemma_some_title_has_first(after, title, j);
        let k = choose|k: int| is_first_with_title(after, title, k);
        lemma_first_title_is_position(after, title, k);
    }
}

/// Deleting the entry with an id that only one entry carries leaves no
/// entry with that id: a later lookup answers 404.
pub proof fn law_delete_removes_id(items: Seq<TodoItem>, id: Seq<char>, i: int)
    requires
        position_of_id(items, id) == Some(i),
        forall|j: int, k: int|
            0 <= j < items.len() && 0 <= k < items.len() && has_id(#[trigger] items[j], id) && has_id(
                #[trigger] items[k],
                id,
            ) ==> j == k,
    ensures
        position_of_id(items.remove(i), id) is None,
{
    let after = items.remove(i);
    assert(is_first_with_id(items, id, i));
    if exists|k: int| is_first_with_id(after, id, k) {
        let k = choose|k: int| is_first_with_id(after, id, k);
        if k < i {
            assert(after[k] == items[k]);
        } else {
            assert(after[k] == items[k + 1]);
        }
    }
}

/// A patch keeps the entry where it is, with its id and creation time:
/// looking its id up afterwards finds the patched entry.
pub proof fn law_get_finds_patched_entry(items: Seq<TodoItem>, id: Seq<char>, i: int, body: TodoItemSchemaUpdate, now: Timestamp)
    requires
        position_of_id(items, id) == Some(i),
    ensures
        position_of_id(items.update(i, patched(items[i], body, now)), id) == Some(i),
        items.update(i, patched(items[i], body, now)).len() == items.len(),
        ({
            let e = items.update(i, patched(items[i], body, now))[i];
            &&& e.id == items[i].id
            &&& e.creation_time == items[i].creation_time
            &&& e.update_time == Some(now)
            &&& e.secret == body.secret
            &&& (body.completion matches Some(c) ==> e.completion == Some(c))
            &&& (body.completion is None ==> e.completion == items[i].completion)
            &&& (body.title matches Some(t) ==> (t@.len() > 0 ==> e.title == t))
            &&& (body.title matches Some(t) ==> (t@.len() == 0 ==> e.title == items[i].title))
            &&& (body.title is None ==> e.title == items[i].title)
            &&& (body.content matches Some(c) ==> (c@.len() > 0 ==> e.content == c))
            &&& (body.content matches Some(c) ==> (c@.len() == 0 ==> e.content == items[i].content))
            &&& (body.content is None ==> e.content == items[i].content)
        }),
        forall|j: int| 0 <= j < items.len() && j != i ==> #[trigger] items.update(i, patched(items[i], body, now))[j] == items[j],
{
    let after = items.update(i, patched(items[i], body, now));
    assert(is_first_with_id(items, id, i));
    assert forall|j: int| 0 <= j < i implies !has_id(#[trigger] after[j], id) by {
        assert(after[j] == items[j]);
    }
    assert(is_first_with_id(after, id, i));
    lemma_first_id_is_position(after, id, i);
}

/// Consecutive pages are adjacent: the page of size `limit` at `offset`
/// followed by the next one is the page of twice the size at `offset`, so
/// paging neither skips nor repeats an entry.
pub proof fn law_consecutive_pages_adjoin(items: Seq<TodoItem>, offset: int, limit: int)
    requires
        offset >= 0,
        limit >= 0,
    ensures
        page_window(items, offset, limit) + page_window(items, offset + limit, limit) == page_window(
            items,
            offset,
            2 * limit,
        ),
{
    let n = items.len() as int;
    let s1 = if offset < n { offset } else { n };
    let e1 = if s1 + limit < n { s1 + limit } else { n };
    let s2 = if offset + limit < n { offset + limit } else { n };
    let e2 = if s2 + limit < n { s2 + limit } else { n };
    let e3 = if s1 + 2 * limit < n { s1 + 2 * limit } else { n };
    assert(e1 == s2);
    assert(e2 == e3);
    let f = |it: TodoItem| dto_of(it);
    assert(items.subrange(s1, e1) + items.subrange(s2, e2) =~= items.subrange(s1, e3));
    assert((items.subrange(s1, e1) + items.subrange(s2, e2)).map_values(f) =~= items.subrange(s1, e1).map_values(f)
        + items.subrange(s2, e2).map_values(f));
}

/// The pages `0` to `k - 1` of size `limit`, one after the other.
pub open spec fn first_pages(items: Seq<TodoItem>, limit: int, k: nat) -> Seq<TodoItemDTO>
    decreases k,
{
    if k == 0 {
        seq![]
    } else {
        first_pages(items, limit, (k - 1) as nat) + page_window(items, (k - 1) * limit, limit)
    }
}

/// The number of pages of size `limit` that `n` entries fill.
pub open spec fn page_count(n: int, limit: int) -> int {
    (n + limit - 1) / limit
}

proof fn lemma_first_pages_prefix(items: Seq<TodoItem>, limit: int, k: nat)
    requires
        limit >= 1,
    ensures
        first_pages(items, limit, k) == items.subrange(
            0,
            if k * limit < items.len() { k * limit } else { items.len() as int },
        ).map_values(|it: TodoItem| dto_of(it)),
    decreases k,
{
    let n = items.len() as int;
    let f = |it: TodoItem| dto_of(it);
    if k == 0 {
        assert(items.subrange(0, 0).map_values(f) =~= Seq::<TodoItemDTO>::empty());
    } else {
        let j = (k - 1) as nat;
        lemma_first_pages_prefix(items, limit, j);
        assert(j * limit + limit == k * limit) by (nonlinear_arith)
            requires
                j + 1 == k,
        ;
        assert(j * limit >= 0) by (nonlinear_arith)
            requires
                limit >= 1,
        ;
        let a = if j * limit < n { j * limit } else { n };
        let b = if k * limit < n { k * limit } else { n };
        assert(items.subrange(0, a) + items.subrange(a, b) =~= items.subrange(0, b));
        assert((items.subrange(0, a) + items.subrange(a, b)).map_values(f) =~= items.subrange(0, a).map_values(f)
            + items.subrange(a, b).map_values(f));
    }
}

/// Paging covers the whole list: with pages of size `limit`, the pages
/// `0` to `page_count - 1` put together are the whole list (without the
/// secrets), every one of them but the last is full, and every later page
/// is empty.
pub proof fn law_pages_cover_the_list(items: Seq<TodoItem>, limit: int)
    requires
        limit >= 1,
    ensures
        first_pages(items, limit, page_count(items.len() as int, limit) as nat) == items.map_values(
            |it: TodoItem| dto_of(it),
        ),
        forall|p: int|
            0 <= p < page_count(items.len() as int, limit) - 1 ==> (#[trigger] page_window(items, p * limit, limit)).len()
                == limit,
        forall|p: int|
            p >= page_count(items.len() as int, limit) ==> (#[trigger] page_window(items, p * limit, limit)).len()
                == 0,
{
    let n = items.len() as int;
    let k = page_count(n, limit);
    assert(k * limit >= n && k >= 0) by (nonlinear_arith)
        requires
            limit >= 1,
            n >= 0,
            k == (n + limit - 1) / limit,
    ;
    lemma_first_pages_prefix(items, limit, k as nat);
    assert(items.subrange(0, n) =~= items);
    assert forall|p: int| 0 <= p < k - 1 implies (#[trigger] page_window(items, p * limit, limit)).len() == limit by {
        assert((p + 1) * limit < n) by (nonlinear_arith)
            requires
                limit >= 1,
                n >= 0,
                0 <= p < k - 1,
                k == (n + limit - 1) / limit,
        ;
        assert(p * limit + limit == (p + 1) * limit) by (nonlinear_arith);
        assert(p * limit >= 0) by (nonlinear_arith)
            requires
                p >= 0,
                limit >= 1,
        ;
    }
    assert forall|p: int| p >= k implies (#[trigger] page_window(items, p * limit, limit)).len() == 0 by {
        assert(p * limit >= k * limit) by (nonlinear_arith)
            requires
                p >= k,
                limit >= 1,
        ;
    }
}

/// The page size is the limit asked for: with a limit `l` and page `p`
/// (0 when none is given), a list that reaches past the page gives
/// exactly its entries `p * l` to `p * l + l - 1`; a page that starts past
/// the end of the list is empty.
pub proof fn law_page_holds_the_limit_asked(items: Seq<TodoItem>, o: TodoItemListQueryOptions, l: usize)
    requires
        o.limit == Some(l),
    ensures
        ({
            let p: int = match o.page {
                Some(p) => p as int,
                None => 0,
            };
            &&& p * l + l <= items.len() ==> page_window(
                items,
                list_page(Some(o)) * list_limit(Some(o)),
                list_limit(Some(o)) as int,
            ) == items.subrange(p * l, p * l + l).map_values(|it: TodoItem| dto_of(it))
            &&& p * l >= items.len() ==> page_window(
                items,
                list_page(Some(o)) * list_limit(Some(o)),
                list_limit(Some(o)) as int,
            ).len() == 0
        }),
{
    let p: int = match o.page {
        Some(p) => p as int,
        None => 0,
    };
    assert(list_page(Some(o)) == p);
    assert(list_limit(Some(o)) == l);
    assert(p * l >= 0) by (nonlinear_arith)
        requires
            p >= 0,
            l >= 0,
    ;
}

/// Without options, or without a limit, a page holds 10 entries: the
/// first page is the first ten entries (or the whole list when shorter).
pub proof fn law_default_page_size_is_ten(items: Seq<TodoItem>, o: Option<TodoItemListQueryOptions>)
    requires
        o matches Some(opts) ==> opts.limit is None && opts.page is None,
    ensures
        page_window(items, list_page(o) * list_limit(o), list_limit(o) as int) == items.subrange(
            0,
            if items.len() < 10 { items.len() as int } else { 10 },
        ).map_values(|it: TodoItem| dto_of(it)),
{
    assert(list_page(o) == 0);
    assert(list_limit(o) == 10);
}

} // verus!
