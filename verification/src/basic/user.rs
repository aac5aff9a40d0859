//! A user record.

use vstd::prelude::*;

verus! {

#[derive(Debug, Clone, Copy, PartialEq, Eq, Structural)]
pub enum Gender {
    Unspecified,
    Male,
    Female,
}

#[derive(Debug, PartialEq, Eq)]
pub struct User {
    pub name: String,
    pub age: u8,
    pub gender: Gender,
}

impl User {
    pub fn new(name: String, age: u8, gender: Gender) -> (user: Self)
        ensures
            user.name == name,
            user.age == age,
            user.gender == gender,
    {
        Self { name, age, gender }
    }
}

impl Default for User {
    /// A user of unknown name, age zero and unspecified gender.
    fn default() -> (user: Self)
        ensures
            user.name@ == "Unknown Name"@,
            user.age == 0,
            user.gender == Gender::Unspecified,
    {
        User::new("Unknown Name".to_owned(), 0, Gender::Unspecified)
    }
}

} // verus!
