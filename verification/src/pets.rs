use vstd::prelude::*;
use std::ops::Add;

verus! {

/// A cat with its name and its age in years.
#[derive(Debug)]
pub struct Cat {
    name: String,
    age: u16,
}

/// A pet: a cat or a dog.
pub enum Pet {
    Cat(Cat),
    Dog { name: String, age: u16 },
}

impl Clone for Cat {
    fn clone(&self) -> (r: Self)
        ensures
            r.name() == self.name(),
            r.age() == self.age(),
    {
        Cat { name: self.name.clone(), age: self.age }
    }
}

impl Cat {
    /// The name of the cat.
    pub closed spec fn name(&self) -> Seq<char> {
        self.name@
    }

    /// The age of the cat.
    pub closed spec fn age(&self) -> u16 {
        self.age
    }

    /// The cat of that name and age.
    pub fn new(name: String, age: u16) -> (r: Cat)
        ensures
            r.name() == name@,
            r.age() == age,
    {
        Cat { name, age }
    }

    /// The name of the cat.
    pub fn as_ref(&self) -> (r: &str)
        ensures
            r@ == self.name(),
    {
        self.name.as_str()
    }

    /// The age of the cat.
    pub fn years(&self) -> (r: u16)
        ensures
            r == self.age(),
    {
        self.age
    }

    /// Makes the cat `rhs` years older.
    pub fn add_assign(&mut self, rhs: u16)
        requires
            old(self).age() + rhs <= u16::MAX,
        ensures
            final(self).name() == old(self).name(),
            final(self).age() == old(self).age() + rhs,
    {
        self.age += rhs
    }
}

impl Pet {
    /// Whether the pet is a cat.
    pub open spec fn is_cat(&self) -> bool {
        self is Cat
    }

    /// The name of the pet.
    pub closed spec fn name(&self) -> Seq<char> {
        match self {
            Pet::Cat(cat) => cat.name(),
            Pet::Dog { name, .. } => name@,
        }
    }

    /// The age of the pet.
    pub closed spec fn age(&self) -> u16 {
        match self {
            Pet::Cat(cat) => cat.age(),
            Pet::Dog { age, .. } => *age,
        }
    }
}

impl vstd::std_specs::convert::TryFromSpecImpl<Pet> for Cat {
    open spec fn obeys_try_from_spec() -> bool {
        true
    }

    /// The cat that the pet is, or a message where it is a dog.
    open spec fn try_from_spec(v: Pet) -> Result<Self, Self::Error> {
        match v {
            Pet::Cat(cat) => Ok(cat),
            Pet::Dog { .. } => Err("The Pet doesn't contain cat"),
        }
    }
}

impl TryFrom<Pet> for Cat {
    type Error = &'static str;

    /// The cat that the pet is, or a message where it is a dog.
    fn try_from(value: Pet) -> (r: Result<Self, Self::Error>)
        ensures
            r.is_ok() == value.is_cat(),
            r matches Ok(cat) ==> cat.name() == value.name() && cat.age() == value.age(),
            r matches Err(message) ==> message@ == "The Pet doesn't contain cat"@,
    {
        if let Pet::Cat(Cat { name, age }) = value {
            Ok(Cat { name, age })
        } else {
            Err("The Pet doesn't contain cat")
        }
    }
}

impl vstd::std_specs::ops::AddSpecImpl<u16> for Cat {
    open spec fn obeys_add_spec() -> bool {
        true
    }

    /// Years can be added where the age stays in its range.
    open spec fn add_req(self, rhs: u16) -> bool {
        self.age() + rhs <= u16::MAX
    }

    /// The same cat, `rhs` years older.
    closed spec fn add_spec(self, rhs: u16) -> Cat {
        Cat { name: self.name, age: (self.age + rhs) as u16 }
    }
}

impl Add<u16> for Cat {
    type Output = Cat;

    /// The same cat, `rhs` years older.
    fn add(self, rhs: u16) -> (r: Cat)
        ensures
            r.name() == self.name(),
            r.age() == self.age() + rhs,
    {
        Cat { name: self.name, age: self.age + rhs }
    }
}

impl vstd::std_specs::convert::FromSpecImpl<Cat> for Pet {
    open spec fn obeys_from_spec() -> bool {
        true
    }

    /// The cat as a pet.
    open spec fn from_spec(v: Cat) -> Pet {
        Pet::Cat(v)
    }
}

impl From<Cat> for Pet {
    /// The cat as a pet.
    fn from(value: Cat) -> (r: Self)
        ensures
            r.is_cat(),
            r.name() == value.name(),
            r.age() == value.age(),
    {
        Self::Cat(Cat { name: value.name, age: value.age })
    }
}

} // verus!
