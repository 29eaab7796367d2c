use webpg::error::AppError;
use webpg::todo::{new_todo_title, todo_id, todo_item_html, CreateTodoForm, TodoRow};

#[test]
fn titles_are_trimmed() {
    let form = CreateTodoForm { title: "  Write tests  ".to_string() };
    assert_eq!(new_todo_title(&form), Some("Write tests"));
}

#[test]
fn blank_titles_are_skipped() {
    let form = CreateTodoForm { title: " \t ".to_string() };
    assert_eq!(new_todo_title(&form), None);
}

#[test]
fn ids_come_from_the_path() {
    assert!(matches!(todo_id(Some("1")), Ok(1)));
    assert!(matches!(todo_id(Some("-12")), Ok(-12)));
    assert!(matches!(todo_id(Some("abc")), Err(AppError::NotFound)));
    assert!(matches!(todo_id(Some("")), Err(AppError::NotFound)));
    assert!(matches!(todo_id(None), Err(AppError::NotFound)));
}

#[test]
fn todo_rows_hold_their_fields() {
    let row = TodoRow { id: 3, title: "Ship feature".to_string(), completed: true };
    assert_eq!(row.id, 3);
    assert_eq!(row.title, "Ship feature");
    assert!(row.completed);
}

#[test]
fn error_statuses() {
    assert_eq!(AppError::NotFound.status_code(), 400);
    assert_eq!(AppError::Parse("bad form".to_string()).status_code(), 400);
    assert_eq!(AppError::Db("locked".to_string()).status_code(), 500);
    assert_eq!(AppError::Json("eof".to_string()).status_code(), 500);
    assert_eq!(AppError::Other("boom".to_string()).status_code(), 500);
}

#[test]
fn open_item_offers_mark_done() {
    let row = TodoRow { id: 4, title: "Buy <milk>".to_string(), completed: false };
    assert_eq!(
        todo_item_html(&row),
        "<li>Buy &lt;milk&gt;<form method=\"post\" action=\"/todo/4/toggle\"><button>Mark done</button></form>\
         <form method=\"post\" action=\"/todo/4/delete\"><button>Delete</button></form></li>"
    );
}

#[test]
fn completed_item_is_marked_complete() {
    let row = TodoRow { id: -2, title: "Done".to_string(), completed: true };
    let html = todo_item_html(&row);
    assert!(html.contains("Completed"));
    assert!(html.contains("Mark active"));
    assert!(html.contains("is-complete"));
    assert!(!html.contains("Mark done"));
    assert!(html.contains("/todo/-2/toggle"));
}
