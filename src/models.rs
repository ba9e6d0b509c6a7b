//! The rows and payloads that listings are made of.
use vstd::prelude::*;

verus! {

/// A container named by id: a parent in a breadcrumb, or a list entry.
#[derive(Debug, Clone, PartialEq, Eq)]
pub struct IDContainer {
    pub id: u32,
    pub name: String,
}

/// A container's own fields, as a parent payload or a request body.
#[derive(Debug, Clone, PartialEq, Eq)]
pub struct BasicContainer {
    pub name: String,
    pub description: String,
}

/// A container listed as a child.
#[derive(Debug, Clone, PartialEq, Eq)]
pub struct Container {
    pub id: u32,
    pub name: String,
    pub description: String,
}

/// A category row.
#[derive(Debug, Clone, PartialEq, Eq)]
pub struct Category {
    pub category_id: i32,
    pub name: String,
    pub description: String,
}

/// An account as others see it; the password digest is never part of it.
#[derive(Debug, Clone, PartialEq, Eq)]
pub struct User {
    pub user_id: u32,
    pub username: String,
    pub description: String,
    pub profile_tag: String,
    pub is_avatar_set: bool,
    pub is_admin: bool,
}

/// What a listing shows of a post's or thread's author.
#[derive(Debug, Clone, PartialEq, Eq)]
pub struct BasicUser {
    pub username: String,
    pub is_avatar_set: bool,
}

/// The query string of a search: the text to look for, if any.
#[derive(Debug, Clone, PartialEq, Eq)]
pub struct SearchQuery {
    pub q: Option<String>,
}

/// An error with a fixed message.
#[derive(Debug, Clone, Copy, PartialEq, Eq)]
pub struct Error {
    pub msg: &'static str,
}

} // verus!
