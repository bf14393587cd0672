//! Decisions taken while mirroring assignments: the description file's text,
//! the kind of a submission, quiz questions, and submitted attachments.

use vstd::prelude::*;
use crate::model::{QuizQuestion, UploadAttachment};
use crate::naming::{sanitize_file_name, spec_sanitize_file_name};
use crate::numbers::{i32_text, parse_i32, spec_i32_text, spec_parse_i32};
use crate::registry::{lookup, PathRegistry};
use crate::text::{
    contains_seq, extract_number_after, first_occurrence, lemma_first_occurrence, occurs_at, push_str,
    spec_extract_after, to_owned_string,
};
use crate::time::{spec_parse_modified, Timestamp};

verus! {

/// A rating of a rubric criterion, with its points already written as text.
#[derive(Debug)]
pub struct RatingLine {
    pub points: String,
    pub description: Option<String>,
    pub long_description: Option<String>,
}

/// A rubric criterion, with its points already written as text.
#[derive(Debug)]
pub struct RubricLine {
    pub points: String,
    pub description: Option<String>,
    pub long_description: Option<String>,
    pub ratings: Vec<RatingLine>,
}

/// The text shown for a criterion or rating: the long description where it
/// is present and not empty, else the description, else nothing.
pub open spec fn spec_chosen_text(long: Option<Seq<char>>, short: Option<Seq<char>>) -> Seq<char> {
    match long {
        Some(l) if l.len() > 0 => l,
        _ => match short {
            Some(s) => s,
            None => Seq::empty(),
        },
    }
}

/// The text shown for a criterion or rating.
pub fn chosen_text(long: &Option<String>, short: &Option<String>) -> (r: String)
    ensures
        r@ == spec_chosen_text(long.deep_view(), short.deep_view()),
{
    match long {
        Some(l) => {
            if l.as_str().is_empty() {
                match short {
                    Some(s) => to_owned_string(s.as_str()),
                    None => String::new(),
                }
            } else {
                to_owned_string(l.as_str())
            }
        },
        None => match short {
            Some(s) => to_owned_string(s.as_str()),
            None => String::new(),
        },
    }
}

/// The line of a rating: `<text> ===> <points>` and a newline.
pub open spec fn spec_rating_line(r: RatingLine) -> Seq<char> {
    spec_chosen_text(r.long_description.deep_view(), r.description.deep_view()) + " ===> "@ + r.points@ + "\n"@
}

/// The lines of a list of ratings.
pub open spec fn spec_rating_lines(rs: Seq<RatingLine>) -> Seq<char>
    decreases rs.len(),
{
    if rs.len() == 0 {
        Seq::empty()
    } else {
        spec_rating_lines(rs.drop_last()) + spec_rating_line(rs.last())
    }
}

/// The text of a criterion: `[<points> Points] <text>`, a newline, its
/// ratings' lines, and two newlines.
pub open spec fn spec_rubric_item(item: RubricLine) -> Seq<char> {
    "["@ + item.points@ + " Points] "@ + spec_chosen_text(item.long_description.deep_view(), item.description.deep_view())
        + "\n"@ + spec_rating_lines(item.ratings@) + "\n\n"@
}

/// The text of a list of criteria.
pub open spec fn spec_rubric_items(items: Seq<RubricLine>) -> Seq<char>
    decreases items.len(),
{
    if items.len() == 0 {
        Seq::empty()
    } else {
        spec_rubric_items(items.drop_last()) + spec_rubric_item(items.last())
    }
}

/// The description file of an assignment: its description (or nothing), then,
/// where it has a rubric, a newline and the rubric's text.
pub open spec fn spec_assignment_text(description: Option<Seq<char>>, rubric: Option<Seq<RubricLine>>) -> Seq<char> {
    let d = match description {
        Some(t) => t,
        None => Seq::empty(),
    };
    match rubric {
        Some(items) => d + "\n"@ + spec_rubric_items(items),
        None => d,
    }
}

fn push_rating_lines(out: &mut String, ratings: &Vec<RatingLine>)
    ensures
        final(out)@ == old(out)@ + spec_rating_lines(ratings@),
{
    let ghost start = out@;
    for j in 0..ratings.len()
        invariant
            out@ == start + spec_rating_lines(ratings@.take(j as int)),
    {
        let r = &ratings[j];
        let t = chosen_text(&r.long_description, &r.description);
        push_str(out, t.as_str());
        push_str(out, " ===> ");
        push_str(out, r.points.as_str());
        push_str(out, "\n");
        assert(ratings@.take(j + 1).drop_last() =~= ratings@.take(j as int));
    }
    assert(ratings@.take(ratings@.len() as int) =~= ratings@);
}

/// The text written to an assignment's description file.
pub fn assignment_text(description: &Option<String>, rubric: &Option<Vec<RubricLine>>) -> (r: String)
    ensures
        r@ == spec_assignment_text(description.deep_view(), match rubric {
            Some(v) => Some(v@),
            None => None,
        }),
{
    let mut out = match description {
        Some(d) => to_owned_string(d.as_str()),
        None => String::new(),
    };
    match rubric {
        Some(items) => {
            push_str(&mut out, "\n");
            let ghost start = out@;
            for j in 0..items.len()
                invariant
                    out@ == start + spec_rubric_items(items@.take(j as int)),
            {
                let item = &items[j];
                push_str(&mut out, "[");
                push_str(&mut out, item.points.as_str());
                push_str(&mut out, " Points] ");
                let t = chosen_text(&item.long_description, &item.description);
                push_str(&mut out, t.as_str());
                push_str(&mut out, "\n");
                push_rating_lines(&mut out, &item.ratings);
                push_str(&mut out, "\n\n");
                assert(items@.take(j + 1).drop_last() =~= items@.take(j as int));
            }
            assert(items@.take(items@.len() as int) =~= items@);
        },
        None => {},
    }
    out
}

/// Every criterion of a rubric is written, in order: the description file of
/// an assignment whose rubric has one more criterion `x` at its end is the
/// file without it followed by `x`'s text, which is `[<points> Points]
/// <text>`, a newline, one line `<text> ===> <points>` per rating of `x` in
/// order, and two newlines. With no criteria the file is the description
/// and a newline; with no rubric, the description alone.
pub proof fn lemma_rubric_criteria_all_written(
    description: Option<Seq<char>>,
    items: Seq<RubricLine>,
    x: RubricLine,
)
    ensures
        spec_assignment_text(description, Some(items.push(x))) == spec_assignment_text(description, Some(items))
            + ("["@ + x.points@ + " Points] "@ + spec_chosen_text(x.long_description.deep_view(), x.description.deep_view())
            + "\n"@ + spec_rating_lines(x.ratings@) + "\n\n"@),
        spec_assignment_text(description, Some(Seq::empty())) == match description {
            Some(t) => t,
            None => Seq::empty(),
        } + "\n"@,
        spec_assignment_text(description, None) == match description {
            Some(t) => t,
            None => Seq::<char>::empty(),
        },
{
    assert(items.push(x).drop_last() =~= items);
    assert(spec_rubric_items(Seq::<RubricLine>::empty()) =~= Seq::<char>::empty());
    let d = match description {
        Some(t) => t,
        None => Seq::<char>::empty(),
    };
    assert(d + "\n"@ + spec_rubric_items(items.push(x)) =~= d + "\n"@ + spec_rubric_items(items) + spec_rubric_item(x));
    assert(d + "\n"@ + Seq::<char>::empty() =~= d + "\n"@);
}

/// Every rating of a criterion is written, in order: the lines of ratings
/// with one more rating `r` at the end are the lines without it followed by
/// `<text> ===> <points>` and a newline for `r`; no ratings give no lines.
pub proof fn lemma_rating_lines_all_written(ratings: Seq<RatingLine>, r: RatingLine)
    ensures
        spec_rating_lines(ratings.push(r)) == spec_rating_lines(ratings) + (spec_chosen_text(
            r.long_description.deep_view(),
            r.description.deep_view(),
        ) + " ===> "@ + r.points@ + "\n"@),
        spec_rating_lines(Seq::empty()) == Seq::<char>::empty(),
{
    assert(ratings.push(r).drop_last() =~= ratings);
}

/// The two kinds of submission that are mirrored.
#[derive(Debug, Clone, Copy, PartialEq, Eq, Structural)]
pub enum SubmissionKind {
    Quiz,
    Upload,
}

/// The kind of a submission by its type: `online_quiz` or `online_upload`;
/// any other type, or none, is not known.
pub open spec fn spec_submission_kind(submission_type: Option<Seq<char>>) -> Option<SubmissionKind> {
    match submission_type {
        Some(t) => if t == "online_quiz"@ {
            Some(SubmissionKind::Quiz)
        } else if t == "online_upload"@ {
            Some(SubmissionKind::Upload)
        } else {
            None
        },
        None => None,
    }
}

/// The kind of a submission; `None` where its type is not known.
pub fn submission_kind(submission_type: &Option<String>) -> (r: Option<SubmissionKind>)
    ensures
        r == spec_submission_kind(submission_type.deep_view()),
{
    match submission_type {
        Some(t) => {
            let quiz = to_owned_string("online_quiz");
            let upload = to_owned_string("online_upload");
            if String::eq(t, &quiz) {
                Some(SubmissionKind::Quiz)
            } else if String::eq(t, &upload) {
                Some(SubmissionKind::Upload)
            } else {
                None
            }
        },
        None => None,
    }
}

/// The index of the first question with the given identifier.
pub open spec fn first_question_with_id(questions: Seq<QuizQuestion>, question_id: i32) -> Option<int> {
    if exists|j: int| 0 <= j < questions.len() && questions[j].id == question_id {
        Some(choose|j: int| 0 <= j < questions.len() && questions[j].id == question_id
            && forall|k: int| 0 <= k < j ==> questions[k].id != question_id)
    } else {
        None
    }
}

/// Finds the first question with the given identifier.
pub fn find_question(questions: &Vec<QuizQuestion>, question_id: i32) -> (r: Option<usize>)
    ensures
        match r {
            Some(j) => first_question_with_id(questions@, question_id) == Some(j as int) && j < questions@.len(),
            None => first_question_with_id(questions@, question_id) is None,
        },
{
    let mut j: usize = 0;
    while j < questions.len()
        invariant
            j <= questions@.len(),
            forall|k: int| 0 <= k < j ==> questions@[k].id != question_id,
        decreases questions@.len() - j,
    {
        if questions[j].id == question_id {
            let ghost w = choose|w: int| 0 <= w < questions@.len() && questions@[w].id == question_id
                && forall|k: int| 0 <= k < w ==> questions@[k].id != question_id;
            assert(0 <= w < questions@.len() && questions@[w].id == question_id
                && forall|k: int| 0 <= k < w ==> questions@[k].id != question_id);
            assert(w == j);
            return Some(j);
        }
        j = j + 1;
    }
    None
}

/// The name of an attempt's directory: `Attempt_<index>`.
pub fn attempt_name(index: i32) -> (r: String)
    ensures
        r@ == "Attempt_"@ + spec_i32_text(index),
{
    let mut r = to_owned_string("Attempt_");
    let t = i32_text(index);
    push_str(&mut r, t.as_str());
    r
}

/// The directory of an assignment: `<course_dir>/assignments/<safe name>`.
pub fn assignment_directory(course_dir: &str, assignment_name: &str) -> (r: String)
    ensures
        r@ == course_dir@ + "/assignments/"@ + spec_sanitize_file_name(assignment_name@),
{
    let name = sanitize_file_name(assignment_name);
    let mut r = to_owned_string(course_dir);
    push_str(&mut r, "/assignments/");
    push_str(&mut r, name.as_str());
    r
}

/// The course of a submitted file's URL: the integer after `/course/`, or 0
/// where the URL names none.
pub open spec fn spec_attachment_course(url: Seq<char>) -> i32 {
    match spec_extract_after(url, "/course/"@) {
        Some(s) => spec_parse_i32(s)->0,
        None => 0,
    }
}

/// The file of a submitted file's URL: the integer after `/files/`.
pub open spec fn spec_attachment_file(url: Seq<char>) -> i32 {
    spec_parse_i32(spec_extract_after(url, "/files/"@)->0)->0
}

/// A URL whose course part, where present, and whose file part are integers.
pub open spec fn attachment_url_readable(url: Seq<char>) -> bool {
    &&& spec_extract_after(url, "/course/"@) matches Some(s) ==> spec_parse_i32(s) is Some
    &&& spec_extract_after(url, "/files/"@) matches Some(s) && spec_parse_i32(s) is Some
}

/// Is the course part of a submitted file's URL, where present, an integer,
/// and its file part present and an integer?
pub fn attachment_url_is_readable(url: &str) -> (r: bool)
    ensures
        r == attachment_url_readable(url@),
{
    let course_ok = match extract_number_after(url, "/course/") {
        Some(s) => parse_i32(s).is_some(),
        None => true,
    };
    let file_ok = match extract_number_after(url, "/files/") {
        Some(s) => parse_i32(s).is_some(),
        None => false,
    };
    course_ok && file_ok
}

/// The course part of an attachment URL is optional: a URL that holds no
/// `/course/` and whose segment after `/files/` is an integer is readable,
/// and names course 0 and that file. Where the URL names a course, that
/// course is read, and the URL is readable exactly when both segments are
/// integers.
pub proof fn lemma_attachment_course_is_optional(url: Seq<char>)
    ensures
        !contains_seq(url, "/course/"@) && (spec_extract_after(url, "/files/"@) matches Some(s) && spec_parse_i32(s) is Some)
            ==> attachment_url_readable(url) && spec_attachment_course(url) == 0
            && spec_attachment_file(url) == spec_parse_i32(spec_extract_after(url, "/files/"@)->0)->0,
        !contains_seq(url, "/course/"@) && !(spec_extract_after(url, "/files/"@) matches Some(s) && spec_parse_i32(s) is Some)
            ==> !attachment_url_readable(url),
        (spec_extract_after(url, "/course/"@) matches Some(c) && spec_parse_i32(c) is Some) ==> (
            attachment_url_readable(url) <==> (spec_extract_after(url, "/files/"@) matches Some(s) && spec_parse_i32(s) is Some))
            && spec_attachment_course(url) == spec_parse_i32(spec_extract_after(url, "/course/"@)->0)->0,
        (spec_extract_after(url, "/course/"@) matches Some(c) && spec_parse_i32(c) is None) ==> !attachment_url_readable(url),
{
    lemma_first_occurrence(url, "/course/"@);
    if !contains_seq(url, "/course/"@) {
        if let Some(i) = first_occurrence(url, "/course/"@) {
            assert(occurs_at(url, "/course/"@, i));
        }
        assert(spec_extract_after(url, "/course/"@) is None);
    }
}

/// The (course, file) pair a submitted file's URL names.
pub fn attachment_ids(url: &str) -> (r: (i32, i32))
    requires
        attachment_url_readable(url@),
    ensures
        r == (spec_attachment_course(url@), spec_attachment_file(url@)),
{
    let course_id = match extract_number_after(url, "/course/") {
        Some(s) => match parse_i32(s) {
            Some(n) => n,
            None => 0,
        },
        None => 0,
    };
    let file_id = match extract_number_after(url, "/files/") {
        Some(s) => match parse_i32(s) {
            Some(n) => n,
            None => 0,
        },
        None => 0,
    };
    (course_id, file_id)
}

/// What is done with a file attached to a submission.
#[derive(Debug)]
pub enum AttachmentAction {
    /// The file is mirrored already: `link_path` becomes a link to `target`.
    Link { target: String, link_path: String },
    /// The file is fetched into `dest_path`, then registered for
    /// (`course_id`, `file_id`).
    Fetch { course_id: i32, file_id: i32, url: String, dest_path: String, modified: Option<Timestamp> },
}

/// Decides how a submitted file is mirrored into an attempt's attachment
/// directory: linked where its (course, file) pair is registered, else
/// fetched.
pub fn attachment_action(registry: &PathRegistry, attachment_dir: &str, attachment: &UploadAttachment) -> (r: AttachmentAction)
    requires
        attachment_url_readable(attachment.url@),
    ensures
        ({
            let path = attachment_dir@ + "/"@ + spec_sanitize_file_name(attachment.filename@);
            let c = spec_attachment_course(attachment.url@);
            let f = spec_attachment_file(attachment.url@);
            match r {
                AttachmentAction::Link { target, link_path } => lookup(registry@, c, f) == Some(target@)
                    && link_path@ == path,
                AttachmentAction::Fetch { course_id, file_id, url, dest_path, modified } => {
                    &&& lookup(registry@, c, f) is None
                    &&& course_id == c && file_id == f
                    &&& url@ == attachment.url@
                    &&& dest_path@ == path
                    &&& modified == spec_parse_modified(attachment.modified_at.deep_view())
                },
            }
        }),
{
    let name = sanitize_file_name(attachment.filename.as_str());
    let mut path = to_owned_string(attachment_dir);
    push_str(&mut path, "/");
    push_str(&mut path, name.as_str());
    let (course_id, file_id) = attachment_ids(attachment.url.as_str());
    match registry.get_file_path(course_id, file_id) {
        Some(target) => AttachmentAction::Link { target, link_path: path },
        None => {
            let modified = attachment.parsed_modified_at();
            AttachmentAction::Fetch {
                course_id,
                file_id,
                url: to_owned_string(attachment.url.as_str()),
                dest_path: path,
                modified,
            }
        },
    }
}

} // verus!
