use canvas_dump::assignments::{
    assignment_directory, assignment_text, attachment_action, attachment_ids, attempt_name,
    chosen_text, find_question, submission_kind, AttachmentAction, RatingLine, RubricLine,
    SubmissionKind,
};
use canvas_dump::model::{DataWrapper, File, PageContent, QuizQuestion, UploadAttachment};
use canvas_dump::modules::{
    classify_module_url, linked_file_id, linked_file_plan, module_directory, module_file_action,
    module_item_path, LinkedFilePlan, ModuleFileAction, ModuleLink,
};
use canvas_dump::naming::{
    announcement_destination, course_directory, directory_path, join_path, page_destination,
    sanitize_file_name, sanitize_folder_name, shortcut_path,
};
use canvas_dump::registry::PathRegistry;
use canvas_dump::requests::{
    classify_status, empty_body_error, extract_request_error, failure_error, page_body,
    query_parameters, request_error_message, JsonValue, StatusClass,
};
use canvas_dump::attempts::{attempt_step, AttemptEvent, AttemptStepKind, AttemptWalk};
use canvas_dump::urls::{
    bearer, course_context_code, course_url, page_url, quiz_questions_url, resource_url,
    submission_url,
};

#[test]
fn file_names_are_made_safe() {
    assert_eq!(sanitize_file_name("//foo/bar/file"), "_foo_bar_file");
    assert_eq!(sanitize_file_name("My notes, v2.pdf"), "My_notes_v2.pdf");
    assert_eq!(sanitize_file_name("a:b?c"), "a_b_c");
    assert_eq!(sanitize_file_name(".."), "_");
    assert_eq!(sanitize_file_name("con"), "con_");
    let s = sanitize_file_name("x/ y,z<>\u{7f}");
    assert!(!s.contains('/') && !s.contains(' ') && !s.contains(','));
}

#[test]
fn folder_names_keep_slashes() {
    assert_eq!(sanitize_folder_name("course files/Week 1 & 2"), "course_files/Week_1_2");
    assert_eq!(sanitize_folder_name("a_b/c"), "a_b/c");
    assert_eq!(sanitize_folder_name("Über-Ordner"), "Über_Ordner");
}

#[test]
fn page_and_announcement_paths() {
    assert_eq!(page_destination("d/pages", "week 1: intro"), "d/pages/week_1__intro.html");
    assert_eq!(announcement_destination("d/ann", "Exam, room", "12"), "d/ann/Exam,_room_12.html");
    assert_eq!(directory_path("a", "b"), "a/b/");
    assert_eq!(join_path("a", "b"), "a/b");
}

#[test]
fn shortcut_paths() {
    assert_eq!(shortcut_path("x/y"), "x/y.lnk");
    assert_eq!(shortcut_path("x/y.lnk"), "x/y.lnk");
}

#[test]
fn course_directories() {
    assert_eq!(course_directory("../CanvasDump/", "Intro to CS"), "../CanvasDump/Intro_to_CS");
    assert_eq!(course_directory("dump", "A/B"), "dump/A_B");
    assert_eq!(course_directory("", "X"), "X");
}

#[test]
fn urls() {
    assert_eq!(course_url("https://h/api/v1", 42), "https://h/api/v1/courses/42");
    assert_eq!(resource_url("https://h/api/v1/courses/42", "/files"), "https://h/api/v1/courses/42/files");
    assert_eq!(page_url("c", "intro"), "c/pages/intro");
    assert_eq!(submission_url("c/assignments", 5, -1), "c/assignments/5/submissions/-1");
    assert_eq!(quiz_questions_url("api", 9), "api/quiz_submissions/9/questions");
    assert_eq!(course_context_code(42), "course_42");
    assert_eq!(bearer("t0k"), "Bearer t0k");
}

#[test]
fn module_links() {
    assert_eq!(classify_module_url("https://h/courses/1/assignments/2"), ModuleLink::Assignment);
    assert_eq!(classify_module_url("https://h/courses/1/discussion_topics/2"), ModuleLink::Discussion);
    assert_eq!(classify_module_url("https://h/courses/1/files/2"), ModuleLink::File);
    assert_eq!(classify_module_url("https://h/courses/1/quizzes/2"), ModuleLink::Quiz);
    assert_eq!(classify_module_url("https://h/courses/1/pages/x"), ModuleLink::Page);
    assert_eq!(classify_module_url("https://h/courses/1/other"), ModuleLink::Unknown);
    assert_eq!(classify_module_url("https://h/files/1/assignments/2"), ModuleLink::Assignment);
}

#[test]
fn module_file_links() {
    assert_eq!(linked_file_id("https://h/api/v1/courses/1/files/77"), 77);
    assert_eq!(linked_file_id("https://h/api/v1/courses/1/files/x7"), 0);
    let mut r = PathRegistry::new();
    match module_file_action(&r, 1, "https://h/courses/1/files/77") {
        ModuleFileAction::FetchThenLink { file_identifier } => assert_eq!(file_identifier, 77),
        other => panic!("unexpected {:?}", other),
    }
    r.add_file_path(1, 77, "d/files/a.pdf");
    match module_file_action(&r, 1, "https://h/courses/1/files/77") {
        ModuleFileAction::LinkExisting { path } => assert_eq!(path, "d/files/a.pdf"),
        other => panic!("unexpected {:?}", other),
    }
    r.add_file_path(1, 0, "zero");
    match module_file_action(&r, 1, "https://h/courses/1/files/bad") {
        ModuleFileAction::FetchThenLink { file_identifier } => assert_eq!(file_identifier, 0),
        other => panic!("unexpected {:?}", other),
    }
    assert_eq!(module_directory("d", "Week 1: Basics"), "d/modules/Week_1_Basics");
    assert_eq!(module_item_path("d/modules/W", "Slides, part 1"), "d/modules/W/Slides_part_1");
}

fn linked(folder: i32) -> File {
    File {
        id: 5,
        folder_id: folder,
        filename: Some("a b.pdf".to_string()),
        url: Some("https://h/f/5".to_string()),
        modified_at: Some("2020-01-01T00:00:00Z".to_string()),
        locked_for_user: false,
        lock_explaination: None,
        display_name: Some("a b.pdf".to_string()),
    }
}

#[test]
fn linked_file_plans() {
    let mut r = PathRegistry::new();
    assert!(matches!(linked_file_plan(&r, 1, &vec![], "fb"), LinkedFilePlan::NoneFound));
    assert!(matches!(linked_file_plan(&r, 1, &vec![linked(2), linked(2)], "fb"), LinkedFilePlan::TooMany));
    match linked_file_plan(&r, 1, &vec![linked(2)], "d/files") {
        LinkedFilePlan::Fetch { file_id, dest_path, url, .. } => {
            assert_eq!(file_id, 5);
            assert_eq!(dest_path, "d/files/a_b.pdf");
            assert_eq!(url, "https://h/f/5");
        }
        other => panic!("unexpected {:?}", other),
    }
    r.add_folder_path(1, 2, "d/files/week");
    match linked_file_plan(&r, 1, &vec![linked(2)], "d/files") {
        LinkedFilePlan::Fetch { dest_path, .. } => assert_eq!(dest_path, "d/files/week/a_b.pdf"),
        other => panic!("unexpected {:?}", other),
    }
}

#[test]
fn rubric_texts() {
    assert_eq!(chosen_text(&Some("long".to_string()), &Some("short".to_string())), "long");
    assert_eq!(chosen_text(&Some("".to_string()), &Some("short".to_string())), "short");
    assert_eq!(chosen_text(&None, &None), "");
    let rubric = vec![RubricLine {
        points: "5".to_string(),
        description: Some("Style".to_string()),
        long_description: None,
        ratings: vec![
            RatingLine { points: "5".to_string(), description: Some("Good".to_string()), long_description: None },
            RatingLine { points: "0".to_string(), description: None, long_description: Some("None at all".to_string()) },
        ],
    }];
    assert_eq!(
        assignment_text(&Some("Do it.".to_string()), &Some(rubric)),
        "Do it.\n[5 Points] Style\nGood ===> 5\nNone at all ===> 0\n\n\n"
    );
    assert_eq!(assignment_text(&None, &None), "");
    assert_eq!(assignment_text(&None, &Some(vec![])), "\n");
}

#[test]
fn submission_kinds() {
    assert_eq!(submission_kind(&Some("online_quiz".to_string())), Some(SubmissionKind::Quiz));
    assert_eq!(submission_kind(&Some("online_upload".to_string())), Some(SubmissionKind::Upload));
    assert_eq!(submission_kind(&Some("online_text_entry".to_string())), None);
    assert_eq!(submission_kind(&None), None);
}

#[test]
fn quiz_questions_and_attempts() {
    let q = |id: i32| QuizQuestion { id, question_name: String::new(), question_type: String::new(), question_text: String::new() };
    let qs = vec![q(3), q(4), q(4)];
    assert_eq!(find_question(&qs, 4), Some(1));
    assert_eq!(find_question(&qs, 5), None);
    assert_eq!(attempt_name(2), "Attempt_2");
    assert_eq!(assignment_directory("d", "HW 1, part a"), "d/assignments/HW_1_part_a");
}

#[test]
fn attachments() {
    assert_eq!(attachment_ids("https://h/course/12/files/34/download"), (12, 34));
    assert_eq!(attachment_ids("https://h/files/34"), (0, 34));
    let a = UploadAttachment {
        id: 1,
        display_name: "r.pdf".to_string(),
        filename: "my report.pdf".to_string(),
        url: "https://h/files/34/download".to_string(),
        modified_at: None,
    };
    let mut r = PathRegistry::new();
    match attachment_action(&r, "att", &a) {
        AttachmentAction::Fetch { course_id, file_id, url, dest_path, modified } => {
            assert_eq!((course_id, file_id), (0, 34));
            assert_eq!(url, "https://h/files/34/download");
            assert_eq!(dest_path, "att/my_report.pdf");
            assert_eq!(modified, None);
        }
        other => panic!("unexpected {:?}", other),
    }
    r.add_file_path(0, 34, "d/files/report.pdf");
    match attachment_action(&r, "att", &a) {
        AttachmentAction::Link { target, link_path } => {
            assert_eq!(target, "d/files/report.pdf");
            assert_eq!(link_path, "att/my_report.pdf");
        }
        other => panic!("unexpected {:?}", other),
    }
}

#[test]
fn error_answers() {
    let msg = JsonValue::Object(vec![(
        "errors".to_string(),
        JsonValue::Array(vec![JsonValue::Object(vec![("message".to_string(), JsonValue::Text("Invalid access token.".to_string()))])]),
    )]);
    assert_eq!(request_error_message(&msg), Some("Invalid access token.".to_string()));
    assert_eq!(request_error_message(&JsonValue::Array(vec![])), None);
    let no_text = JsonValue::Object(vec![(
        "errors".to_string(),
        JsonValue::Array(vec![JsonValue::Object(vec![("message".to_string(), JsonValue::Number("3".to_string()))])]),
    )]);
    assert_eq!(request_error_message(&no_text), None);
    assert_eq!(request_error_message(&JsonValue::Object(vec![("errors".to_string(), JsonValue::Array(vec![]))])), None);
    assert_eq!(classify_status(200), StatusClass::Success);
    assert_eq!(classify_status(401), StatusClass::Unauthorized);
    assert_eq!(classify_status(404), StatusClass::Failure);
    assert_eq!(empty_body_error("u"), "No Response Text found for u");
    assert_eq!(failure_error("u", 404, &Some("gone".to_string())), "URL: u\nStatus [404]: gone");
    assert_eq!(failure_error("u", 500, &None), "URL: u\nStatus [500]: Cannot get message");
}

#[test]
fn query_sets_page_size() {
    let q = query_parameters(Some(vec![
        ("include[]".to_string(), "submission_history".to_string()),
        ("per_page".to_string(), "10".to_string()),
    ]));
    assert_eq!(
        q,
        vec![
            ("include[]".to_string(), "submission_history".to_string()),
            ("per_page".to_string(), "999999".to_string())
        ]
    );
    assert_eq!(query_parameters(None), vec![("per_page".to_string(), "999999".to_string())]);
}

#[test]
fn page_bodies_and_wrappers() {
    let c = vec![
        PageContent { body: Some("<p>a</p>".to_string()), locked_for_user: None },
        PageContent { body: Some("<p>b</p>".to_string()), locked_for_user: Some(false) },
    ];
    assert_eq!(page_body(&c), "<p>a</p><p>b</p>");
    assert_eq!(page_body(&vec![]), "");
    assert_eq!(DataWrapper::Single(3).get(), vec![3]);
    assert_eq!(DataWrapper::Multiple(vec![1, 2]).get(), vec![1, 2]);
}

#[test]
fn finishing_file_names() {
    assert_eq!(canvas_dump::naming::finish_file_name("a b,c"), "a_bc");
    assert_eq!(canvas_dump::naming::finish_file_name(""), "");
    assert_eq!(canvas_dump::naming::finish_file_name(" ,"), "_");
}

#[test]
fn error_replies_are_read_from_their_text() {
    assert_eq!(
        extract_request_error(r#"{"errors":[{"message":"Invalid access token."}]}"#),
        Ok(Some("Invalid access token.".to_string()))
    );
    assert_eq!(
        extract_request_error(r#"{"errors":[{"message":"first"},{"message":"second"}],"status":"x"}"#),
        Ok(Some("first".to_string()))
    );
    assert_eq!(extract_request_error(r#"{"errors":[]}"#), Ok(None));
    assert_eq!(extract_request_error(r#"{"errors":[{"message":7}]}"#), Ok(None));
    assert_eq!(extract_request_error(r#"{"errors":{"message":"not a list"}}"#), Ok(None));
    assert_eq!(extract_request_error(r#"{"message":"top level"}"#), Ok(None));
    assert_eq!(extract_request_error("[1, 2]"), Ok(None));
    assert_eq!(extract_request_error("<html>Bad gateway</html>"), Err(()));
    assert_eq!(extract_request_error(""), Err(()));
}

#[test]
fn attempts_are_numbered_and_stop_after_a_quiz_without_questions() {
    let w = AttemptWalk::new();
    assert_eq!(w, AttemptWalk { keep_going: true, index: 1 });

    let (w, a) = attempt_step(w, AttemptEvent::SubmissionStarted, 5);
    assert_eq!((w.index, a.kind, a.dir_name), (1, AttemptStepKind::Proceed, None));

    let (w, a) = attempt_step(w, AttemptEvent::AttemptReached { kind: SubmissionKind::Upload, has_quiz_items: false }, 5);
    assert_eq!(a.kind, AttemptStepKind::CreateThenMirrorUploads);
    assert_eq!(a.dir_name, Some("Attempt_1".to_string()));
    assert_eq!(w, AttemptWalk { keep_going: true, index: 2 });

    let (w, a) = attempt_step(w, AttemptEvent::AttemptReached { kind: SubmissionKind::Quiz, has_quiz_items: false }, 5);
    assert_eq!(a.kind, AttemptStepKind::CreateThenReportNoItems);
    assert_eq!(a.dir_name, Some("Attempt_2".to_string()));

    let (w, a) = attempt_step(w, AttemptEvent::AttemptReached { kind: SubmissionKind::Quiz, has_quiz_items: true }, 5);
    assert_eq!(a.kind, AttemptStepKind::CreateThenFetchQuestions);
    assert_eq!(a.dir_name, Some("Attempt_3".to_string()));
    assert_eq!(w.index, 4);

    let (w, a) = attempt_step(w, AttemptEvent::QuestionsFetched { found: true }, 5);
    assert_eq!((a.kind, w), (AttemptStepKind::Proceed, AttemptWalk { keep_going: true, index: 4 }));

    let (w, a) = attempt_step(w, AttemptEvent::QuestionsFetched { found: false }, 5);
    assert_eq!(a.kind, AttemptStepKind::StopAttempts);
    assert_eq!(w, AttemptWalk { keep_going: false, index: 4 });

    // A later attempt still gets its directory, and the walk stays stopped.
    let (w, a) = attempt_step(w, AttemptEvent::AttemptReached { kind: SubmissionKind::Quiz, has_quiz_items: true }, 0);
    assert_eq!(a.kind, AttemptStepKind::CreateThenStop);
    assert_eq!(a.dir_name, Some("Attempt_4".to_string()));
    assert_eq!(w, AttemptWalk { keep_going: false, index: 4 });

    // The next submission numbers its attempts from 1 again.
    let (w, _) = attempt_step(w, AttemptEvent::SubmissionStarted, 0);
    assert_eq!(w, AttemptWalk { keep_going: false, index: 1 });
    let (_, a) = attempt_step(w, AttemptEvent::AttemptReached { kind: SubmissionKind::Upload, has_quiz_items: false }, 0);
    assert_eq!((a.kind, a.dir_name), (AttemptStepKind::CreateThenStop, Some("Attempt_1".to_string())));
}
