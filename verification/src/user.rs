//! User profiles and the requests that create and change them.

use vstd::prelude::*;

verus! {

/// A user profile.
#[derive(Debug)]
pub struct User {
    pub id: String,
    pub name: String,
    pub email: Option<String>,
    pub avatar_path: Option<String>,
    pub join_date: String,
    pub is_premium: bool,
    pub created_at: String,
    pub updated_at: String,
}

/// What a `User` holds, as plain values.
pub struct UserView {
    pub id: Seq<char>,
    pub name: Seq<char>,
    pub email: Option<Seq<char>>,
    pub avatar_path: Option<Seq<char>>,
    pub join_date: Seq<char>,
    pub is_premium: bool,
    pub created_at: Seq<char>,
    pub updated_at: Seq<char>,
}

impl DeepView for User {
    type V = UserView;

    open spec fn deep_view(&self) -> UserView {
        UserView {
            id: self.id@,
            name: self.name@,
            email: self.email.deep_view(),
            avatar_path: self.avatar_path.deep_view(),
            join_date: self.join_date@,
            is_premium: self.is_premium,
            created_at: self.created_at@,
            updated_at: self.updated_at@,
        }
    }
}

impl Clone for User {
    fn clone(&self) -> (r: Self)
        ensures
            r == *self,
    {
        User {
            id: self.id.clone(),
            name: self.name.clone(),
            email: self.email.clone(),
            avatar_path: self.avatar_path.clone(),
            join_date: self.join_date.clone(),
            is_premium: self.is_premium,
            created_at: self.created_at.clone(),
            updated_at: self.updated_at.clone(),
        }
    }
}

/// The request that creates a user.
#[derive(Debug)]
pub struct CreateUserRequest {
    pub name: String,
    pub email: Option<String>,
}

/// What a `CreateUserRequest` holds, as plain values.
pub struct CreateUserRequestView {
    pub name: Seq<char>,
    pub email: Option<Seq<char>>,
}

impl DeepView for CreateUserRequest {
    type V = CreateUserRequestView;

    open spec fn deep_view(&self) -> CreateUserRequestView {
        CreateUserRequestView { name: self.name@, email: self.email.deep_view() }
    }
}

impl Clone for CreateUserRequest {
    fn clone(&self) -> (r: Self)
        ensures
            r == *self,
    {
        CreateUserRequest { name: self.name.clone(), email: self.email.clone() }
    }
}

/// A sparse change-set for a user: a field that is `None` is left as it is.
#[derive(Debug)]
pub struct UpdateUserRequest {
    pub name: Option<String>,
    pub email: Option<String>,
    pub avatar_path: Option<String>,
    pub is_premium: Option<bool>,
}

/// What an `UpdateUserRequest` holds, as plain values.
pub struct UpdateUserRequestView {
    pub name: Option<Seq<char>>,
    pub email: Option<Seq<char>>,
    pub avatar_path: Option<Seq<char>>,
    pub is_premium: Option<bool>,
}

impl DeepView for UpdateUserRequest {
    type V = UpdateUserRequestView;

    open spec fn deep_view(&self) -> UpdateUserRequestView {
        UpdateUserRequestView {
            name: self.name.deep_view(),
            email: self.email.deep_view(),
            avatar_path: self.avatar_path.deep_view(),
            is_premium: self.is_premium,
        }
    }
}

impl Clone for UpdateUserRequest {
    fn clone(&self) -> (r: Self)
        ensures
            r == *self,
    {
        UpdateUserRequest {
            name: self.name.clone(),
            email: self.email.clone(),
            avatar_path: self.avatar_path.clone(),
            is_premium: self.is_premium,
        }
    }
}

impl User {
    /// The user that a stored row holds. A row holds the premium flag as a number: 1 is set,
    /// any other number is not.
    pub fn from_row(
        id: String,
        name: String,
        email: Option<String>,
        avatar_path: Option<String>,
        join_date: String,
        is_premium: i32,
        created_at: String,
        updated_at: String,
    ) -> (r: User)
        ensures
            r.deep_view() == (UserView {
                id: id@,
                name: name@,
                email: email.deep_view(),
                avatar_path: avatar_path.deep_view(),
                join_date: join_date@,
                is_premium: is_premium == 1,
                created_at: created_at@,
                updated_at: updated_at@,
            }),
    {
        User {
            id,
            name,
            email,
            avatar_path,
            join_date,
            is_premium: is_premium == 1,
            created_at,
            updated_at,
        }
    }

    /// The user that a request describes, under the given identifier, created at the time
    /// `now` on the date `today`: it has no avatar and is not premium.
    pub fn from_request(id: String, request: CreateUserRequest, today: String, now: String) -> (r:
        User)
        ensures
            r.deep_view() == (UserView {
                id: id@,
                name: request.name@,
                email: request.email.deep_view(),
                avatar_path: None,
                join_date: today@,
                is_premium: false,
                created_at: now@,
                updated_at: now@,
            }),
    {
        let updated_at = now.clone();
        User {
            id,
            name: request.name,
            email: request.email,
            avatar_path: None,
            join_date: today,
            is_premium: false,
            created_at: now,
            updated_at,
        }
    }
}

/// The pointer to the current user after a user was deleted: it is cleared where it pointed
/// to that user, and stays as it is otherwise.
pub open spec fn pointer_after_delete(current: Option<Seq<char>>, deleted: Seq<char>) -> Option<
    Seq<char>,
> {
    if current == Some(deleted) {
        None
    } else {
        current
    }
}

/// Clears the pointer to the current user where it points to the user that is deleted.
pub fn clear_pointer_to(current: Option<String>, deleted: &str) -> (r: Option<String>)
    ensures
        r.deep_view() == pointer_after_delete(current.deep_view(), deleted@),
{
    match current {
        Some(id) => {
            if *id.as_str() == *deleted {
                None
            } else {
                Some(id)
            }
        },
        None => None,
    }
}

/// The user record that an import creates where the store has none: the snapshot's user,
/// created and updated at the time of the import.
pub open spec fn new_user_of(snapshot_user: UserView, now: Seq<char>) -> UserView {
    UserView { created_at: now, updated_at: now, ..snapshot_user }
}

impl User {
    /// The user record that an import at the time `now` creates for a snapshot's user.
    pub fn adopted_at(&self, now: &str) -> (r: User)
        ensures
            r.deep_view() == new_user_of(self.deep_view(), now@),
    {
        User {
            id: self.id.clone(),
            name: self.name.clone(),
            email: self.email.clone(),
            avatar_path: self.avatar_path.clone(),
            join_date: self.join_date.clone(),
            is_premium: self.is_premium,
            created_at: String::from_str(now),
            updated_at: String::from_str(now),
        }
    }
}

} // verus!
