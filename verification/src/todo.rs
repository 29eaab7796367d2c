//! The todo list's request logic: which titles are stored and which ids a
//! request names.

use vstd::prelude::*;
use crate::error::AppError;
use crate::text::{
    decimal_i64, decimal_int, html_escape, html_escaped, is_white_space, parse_i64, parsed_i64, trim,
    trimmed, trimmed_has_no_outer_white_space,
};

verus! {

/// A todo item as the list shows it.
pub struct TodoRow {
    pub id: i64,
    pub title: String,
    pub completed: bool,
}

/// The form that creates a todo item.
pub struct CreateTodoForm {
    pub title: String,
}

/// The title a new item is stored under: the submitted title without leading
/// and trailing white space, or nothing when that leaves it empty.
pub open spec fn stored_title(title: Seq<char>) -> Option<Seq<char>> {
    if trimmed(title).len() == 0 {
        None
    } else {
        Some(trimmed(title))
    }
}

/// The title to insert for a submitted form, or `None` when the form is blank
/// and nothing is inserted (the request is still redirected to the list).
pub fn new_todo_title(form: &CreateTodoForm) -> (r: Option<&str>)
    ensures
        match r {
            Some(t) => stored_title(form.title@) == Some(t@),
            None => stored_title(form.title@) is None,
        },
{
    let title = trim(form.title.as_str());
    if title.is_empty() {
        None
    } else {
        Some(title)
    }
}

/// The item id a toggle or delete request names in its `id` path parameter:
/// `NotFound` when the parameter is absent or is not a decimal `i64`.
pub fn todo_id(param: Option<&str>) -> (r: Result<i64, AppError>)
    ensures
        match param {
            None => r == Err::<i64, AppError>(AppError::NotFound),
            Some(p) => match parsed_i64(p@) {
                Some(id) => r == Ok::<i64, AppError>(id),
                None => r == Err::<i64, AppError>(AppError::NotFound),
            },
        },
{
    match param {
        None => Err(AppError::NotFound),
        Some(p) => match parse_i64(p) {
            Some(id) => Ok(id),
            None => Err(AppError::NotFound),
        },
    }
}

/// The label of the button that flips an item: `Mark active` for a completed
/// item, `Mark done` for an open one.
pub open spec fn toggle_label(completed: bool) -> Seq<char> {
    if completed {
        "Mark active"@
    } else {
        "Mark done"@
    }
}

/// The list entry of an item: marked `is-complete` and tagged `Completed` when
/// it is done, its title escaped, then a form that toggles it and a form that
/// deletes it, both posting to the item's path.
pub open spec fn todo_item_text(id: int, title: Seq<char>, completed: bool) -> Seq<char> {
    "<li"@ + (if completed { " class=\"is-complete\""@ } else { ""@ }) + ">"@ + html_escaped(title)
        + (if completed { " <span>Completed</span>"@ } else { ""@ })
        + "<form method=\"post\" action=\"/todo/"@ + decimal_int(id) + "/toggle\"><button>"@
        + toggle_label(completed) + "</button></form>"@ + "<form method=\"post\" action=\"/todo/"@
        + decimal_int(id) + "/delete\"><button>Delete</button></form></li>"@
}

/// The HTML list entry the todo page shows for an item.
pub fn todo_item_html(row: &TodoRow) -> (s: String)
    ensures
        s@ == todo_item_text(row.id as int, row.title@, row.completed),
{
    let id = decimal_i64(row.id);
    let title = html_escape(row.title.as_str());
    let mut s = String::new();
    s.append("<li");
    if row.completed {
        s.append(" class=\"is-complete\"");
    } else {
        s.append("");
    }
    s.append(">");
    s.append(title.as_str());
    if row.completed {
        s.append(" <span>Completed</span>");
    } else {
        s.append("");
    }
    s.append("<form method=\"post\" action=\"/todo/");
    s.append(id.as_str());
    s.append("/toggle\"><button>");
    if row.completed {
        s.append("Mark active");
    } else {
        s.append("Mark done");
    }
    s.append("</button></form>");
    s.append("<form method=\"post\" action=\"/todo/");
    s.append(id.as_str());
    s.append("/delete\"><button>Delete</button></form></li>");
    s
}

/// Law: every list entry ends with the form that deletes its own item: a form
/// posting to `/todo/{id}/delete` whose button reads `Delete`, closing the
/// entry.
pub proof fn todo_item_ends_with_its_delete_form(id: int, title: Seq<char>, completed: bool)
    ensures
        exists|head: Seq<char>|
            todo_item_text(id, title, completed) == head + "<form method=\"post\" action=\"/todo/"@
                + decimal_int(id) + "/delete\"><button>Delete</button></form></li>"@,
{
    let form = "<form method=\"post\" action=\"/todo/"@ + decimal_int(id)
        + "/delete\"><button>Delete</button></form></li>"@;
    let head = "<li"@ + (if completed { " class=\"is-complete\""@ } else { ""@ }) + ">"@ + html_escaped(title)
        + (if completed { " <span>Completed</span>"@ } else { ""@ })
        + "<form method=\"post\" action=\"/todo/"@ + decimal_int(id) + "/toggle\"><button>"@
        + toggle_label(completed) + "</button></form>"@;
    assert(todo_item_text(id, title, completed) =~= head + form);
}

/// Law: a list entry opens with `<li class="is-complete">` for a completed item
/// and `<li>` for an open one, then shows the title escaped, then the
/// `Completed` tag only for a completed item, then the form that flips the item
/// (posting to `/todo/{id}/toggle`), labelled `Mark active` for a completed
/// item and `Mark done` for an open one. Completed and open entries differ in
/// nothing else up to there.
pub proof fn todo_item_shows_state_then_toggle(id: int, title: Seq<char>, completed: bool)
    ensures
        ({
            let text = todo_item_text(id, title, completed);
            let start = (if completed {
                "<li class=\"is-complete\">"@
            } else {
                "<li>"@
            }) + html_escaped(title) + (if completed {
                " <span>Completed</span><form method=\"post\" action=\"/todo/"@
            } else {
                "<form method=\"post\" action=\"/todo/"@
            }) + decimal_int(id) + (if completed {
                "/toggle\"><button>Mark active</button></form>"@
            } else {
                "/toggle\"><button>Mark done</button></form>"@
            });
            start.len() <= text.len() && text.subrange(0, start.len() as int) == start
        }),
{
    reveal_strlit("<li");
    reveal_strlit(" class=\"is-complete\"");
    reveal_strlit("");
    reveal_strlit(">");
    reveal_strlit("<li class=\"is-complete\">");
    reveal_strlit("<li>");
    reveal_strlit(" <span>Completed</span>");
    reveal_strlit("<form method=\"post\" action=\"/todo/");
    reveal_strlit(" <span>Completed</span><form method=\"post\" action=\"/todo/");
    reveal_strlit("/toggle\"><button>");
    reveal_strlit("Mark active");
    reveal_strlit("Mark done");
    reveal_strlit("</button></form>");
    reveal_strlit("/toggle\"><button>Mark active</button></form>");
    reveal_strlit("/toggle\"><button>Mark done</button></form>");
    let rest = "<form method=\"post\" action=\"/todo/"@ + decimal_int(id)
        + "/delete\"><button>Delete</button></form></li>"@;
    let open = if completed { "<li class=\"is-complete\">"@ } else { "<li>"@ };
    let tag = if completed {
        " <span>Completed</span><form method=\"post\" action=\"/todo/"@
    } else {
        "<form method=\"post\" action=\"/todo/"@
    };
    let toggle = if completed {
        "/toggle\"><button>Mark active</button></form>"@
    } else {
        "/toggle\"><button>Mark done</button></form>"@
    };
    let start = open + html_escaped(title) + tag + decimal_int(id) + toggle;
    assert(todo_item_text(id, title, completed) =~= start + rest);
    assert((start + rest).subrange(0, start.len() as int) =~= start);
}

/// Law: a stored title is never empty and never begins or ends with white
/// space.
pub proof fn stored_title_is_trimmed(title: Seq<char>)
    ensures
        stored_title(title) matches Some(t) ==> t.len() > 0 && !is_white_space(t[0])
            && !is_white_space(t.last()),
{
    trimmed_has_no_outer_white_space(title);
}

} // verus!
