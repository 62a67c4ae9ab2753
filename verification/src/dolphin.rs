//! A dolphin that performs tricks, or says why it will not.
use vstd::prelude::*;
use vstd::string::StringExecFns;
use vstd::utf8::encode_utf8;

verus! {

/// Why a dolphin refuses a trick.
#[non_exhaustive]
#[derive(Debug, Clone, Copy, PartialEq, Eq, Structural)]
pub enum DolphinError {
    /// The dolphin is hungry.
    Hungry,
    /// The dolphin is too young.
    TooYoung,
    /// The dolphin's name is too long to say.
    LongName,
}

impl DolphinError {
    /// The description of each refusal.
    pub open spec fn description(self) -> Seq<char> {
        match self {
            DolphinError::Hungry => "Dolphin is Hungry"@,
            DolphinError::TooYoung => "The dolphin is too young"@,
            DolphinError::LongName => "The dolphin's name is too long and annoying to say"@,
        }
    }

    /// The refusal in words.
    pub fn message(&self) -> (text: &'static str)
        ensures
            text@ == self.description(),
    {
        match self {
            DolphinError::Hungry => "Dolphin is Hungry",
            DolphinError::TooYoung => "The dolphin is too young",
            DolphinError::LongName => "The dolphin's name is too long and annoying to say",
        }
    }
}

/// A dolphin of a show.
#[derive(Debug)]
pub struct Dolphin {
    pub name: String,
    pub age: u8,
    pub hungry: bool,
}

impl Dolphin {
    /// A name is too long when its UTF-8 form takes more than ten bytes.
    pub open spec fn name_too_long(&self) -> bool {
        encode_utf8(self.name@).len() > 10
    }

    /// A dolphin under four years of age is too young to flip.
    pub open spec fn too_young(&self) -> bool {
        self.age < 4
    }

    /// What a dolphin says to introduce itself.
    pub open spec fn introduction(&self) -> Seq<char> {
        "Hi, my name is "@ + self.name@ + " and I'm a Dolphin!"@
    }

    /// The first reason, in the order of the show, for which the dolphin
    /// refuses to perform: its name, then its age, then its hunger.
    pub open spec fn refusal(&self) -> Option<DolphinError> {
        if self.name_too_long() {
            Some(DolphinError::LongName)
        } else if self.too_young() {
            Some(DolphinError::TooYoung)
        } else if self.hungry {
            Some(DolphinError::Hungry)
        } else {
            None
        }
    }

    /// The dolphin introduces itself, unless its name is too long.
    pub fn say_your_name(&self) -> (said: Result<String, DolphinError>)
        ensures
            self.name_too_long() ==> said == Err::<String, DolphinError>(DolphinError::LongName),
            !self.name_too_long() ==> (said matches Ok(text) && text@ == self.introduction()),
    {
        if self.name.as_str().as_bytes().len() > 10 {
            Err(DolphinError::LongName)
        } else {
            let mut text = String::from_str("Hi, my name is ");
            text.append(self.name.as_str());
            text.append(" and I'm a Dolphin!");
            Ok(text)
        }
    }

    /// The dolphin flips, unless it is too young.
    pub fn flip(&self) -> (said: Result<String, DolphinError>)
        ensures
            self.too_young() ==> said == Err::<String, DolphinError>(DolphinError::TooYoung),
            !self.too_young() ==> (said matches Ok(text) && text@ == "Yippee, I'm doing a flip!"@),
    {
        if self.age < 4 {
            Err(DolphinError::TooYoung)
        } else {
            Ok(String::from_str("Yippee, I'm doing a flip!"))
        }
    }

    /// The dolphin shakes hands, unless it is hungry.
    pub fn shake_hands(&self) -> (said: Result<String, DolphinError>)
        ensures
            self.hungry ==> said == Err::<String, DolphinError>(DolphinError::Hungry),
            !self.hungry ==> (said matches Ok(text) && text@
                == "Nice to meet you, let's shake hands!"@),
    {
        if self.hungry {
            Err(DolphinError::Hungry)
        } else {
            Ok(String::from_str("Nice to meet you, let's shake hands!"))
        }
    }
}

/// The whole show: the dolphin introduces itself, flips and shakes hands.
/// The show ends at the first trick that the dolphin refuses.
pub fn play_time(dolphin: &Dolphin) -> (show: Result<Vec<String>, DolphinError>)
    ensures
        show matches Err(error) ==> dolphin.refusal() == Some(error),
        show matches Ok(responses) ==> ({
            &&& dolphin.refusal() is None
            &&& responses@.len() == 3
            &&& responses@[0]@ == dolphin.introduction()
            &&& responses@[1]@ == "Yippee, I'm doing a flip!"@
            &&& responses@[2]@ == "Nice to meet you, let's shake hands!"@
        }),
{
    let mut responses: Vec<String> = Vec::new();
    let response = dolphin.say_your_name()?;
    responses.push(response);
    responses.push(dolphin.flip()?);
    responses.push(dolphin.shake_hands()?);
    Ok(responses)
}

} // verus!
