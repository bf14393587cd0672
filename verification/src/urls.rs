//! The addresses of the service's resources, and the request parameters.

use vstd::prelude::*;
use crate::numbers::{i32_text, spec_i32_text};
use crate::text::{push_str, to_owned_string};

verus! {

/// The address of a course: `<api>/courses/<course_id>`.
pub open spec fn spec_course_url(api_url: Seq<char>, course_id: i32) -> Seq<char> {
    api_url + "/courses/"@ + spec_i32_text(course_id)
}

/// The address of a course.
pub fn course_url(api_url: &str, course_id: i32) -> (r: String)
    ensures
        r@ == spec_course_url(api_url@, course_id),
{
    let mut r = to_owned_string(api_url);
    push_str(&mut r, "/courses/");
    let id = i32_text(course_id);
    push_str(&mut r, id.as_str());
    r
}

/// The address of a collection under a base address: `<base><suffix>`, such
/// as `.../courses/7/files` for the suffix `/files`.
pub fn resource_url(base_url: &str, suffix: &str) -> (r: String)
    ensures
        r@ == base_url@ + suffix@,
{
    let mut r = to_owned_string(base_url);
    push_str(&mut r, suffix);
    r
}

/// The address of one page of a course: `<course url>/pages/<page url>`.
pub fn page_url(course_url: &str, page: &str) -> (r: String)
    ensures
        r@ == course_url@ + "/pages/"@ + page@,
{
    let mut r = to_owned_string(course_url);
    push_str(&mut r, "/pages/");
    push_str(&mut r, page);
    r
}

/// The address of a user's submissions to an assignment:
/// `<assignments url>/<assignment_id>/submissions/<user_id>`.
pub fn submission_url(assignments_url: &str, assignment_id: i32, user_id: i32) -> (r: String)
    ensures
        r@ == assignments_url@ + "/"@ + spec_i32_text(assignment_id) + "/submissions/"@
            + spec_i32_text(user_id),
{
    let mut r = to_owned_string(assignments_url);
    push_str(&mut r, "/");
    let a = i32_text(assignment_id);
    push_str(&mut r, a.as_str());
    push_str(&mut r, "/submissions/");
    let u = i32_text(user_id);
    push_str(&mut r, u.as_str());
    r
}

/// The address of a quiz submission's questions:
/// `<api>/quiz_submissions/<quiz_id>/questions`.
pub fn quiz_questions_url(api_url: &str, quiz_id: i32) -> (r: String)
    ensures
        r@ == api_url@ + "/quiz_submissions/"@ + spec_i32_text(quiz_id) + "/questions"@,
{
    let mut r = to_owned_string(api_url);
    push_str(&mut r, "/quiz_submissions/");
    let q = i32_text(quiz_id);
    push_str(&mut r, q.as_str());
    push_str(&mut r, "/questions");
    r
}

/// The context code that selects a course's announcements: `course_<id>`.
pub fn course_context_code(course_id: i32) -> (r: String)
    ensures
        r@ == "course_"@ + spec_i32_text(course_id),
{
    let mut r = to_owned_string("course_");
    let id = i32_text(course_id);
    push_str(&mut r, id.as_str());
    r
}

/// The value of the authorization header: `Bearer <token>`.
pub fn bearer(token: &str) -> (r: String)
    ensures
        r@ == "Bearer "@ + token@,
{
    let mut r = to_owned_string("Bearer ");
    push_str(&mut r, token);
    r
}

} // verus!
