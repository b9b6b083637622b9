//! Session identity and the pure parts of the login flow.
//!
//! The HTTP exchanges themselves (login, room-list fetch) are the outer
//! shell's business; what is decided about their plain results is here, with
//! contracts: which login responses carry a session, and how a server room
//! list becomes the ordered, indexed room list of the store.

use vstd::prelude::*;

use crate::store::{Room, RoomModel};

verus! {

/// The signed-in user: name, the rooms the server lists for the user, and
/// the room the server considers current.
pub struct UserInfo {
    pub name: String,
    pub chatrooms: Option<Vec<String>>,
    pub current_room: String,
}

/// Model of the signed-in user.
#[verifier::ext_equal]
pub ghost struct UserInfoModel {
    pub name: Seq<char>,
    pub chatrooms: Option<Seq<Seq<char>>>,
    pub current_room: Seq<char>,
}

impl View for UserInfo {
    type V = UserInfoModel;

    open spec fn view(&self) -> UserInfoModel {
        UserInfoModel {
            name: self.name@,
            chatrooms: match self.chatrooms {
                Some(rooms) => Some(rooms.deep_view()),
                None => None,
            },
            current_room: self.current_room@,
        }
    }
}

impl Clone for UserInfo {
    fn clone(&self) -> (res: Self)
        ensures
            res@ == self@,
    {
        let chatrooms = match &self.chatrooms {
            Some(rooms) => {
                let mut copy: Vec<String> = Vec::new();
                let mut i: usize = 0;
                while i < rooms.len()
                    invariant
                        i <= rooms@.len(),
                        copy@ =~= rooms@.take(i as int),
                    decreases rooms@.len() - i,
                {
                    copy.push(rooms[i].clone());
                    i = i + 1;
                }
                proof {
                    assert(copy@ =~= rooms@);
                }
                Some(copy)
            },
            None => None,
        };
        UserInfo { name: self.name.clone(), chatrooms, current_room: self.current_room.clone() }
    }
}

impl Default for UserInfo {
    /// A blank identity: empty name, no room list, no current room.
    fn default() -> (res: Self)
        ensures
            res@ == (UserInfoModel {
                name: Seq::<char>::empty(),
                chatrooms: None,
                current_room: Seq::<char>::empty(),
            }),
    {
        UserInfo { name: String::new(), chatrooms: None, current_room: String::new() }
    }
}

/// The credentials a login attempt carries.
pub struct LoginInfo {
    pub email: String,
    pub password: String,
}

impl Clone for LoginInfo {
    fn clone(&self) -> (res: Self)
        ensures
            res == *self,
    {
        LoginInfo { email: self.email.clone(), password: self.password.clone() }
    }
}

/// Why a login response yielded no session.
#[derive(Clone, Copy, PartialEq, Eq, Structural, Debug)]
pub enum LoginError {
    /// The server answered the login form with a plain page instead of a
    /// redirect: the credentials were not accepted.
    Rejected,
    /// The response carried no session cookie.
    MissingCookie,
}

impl LoginError {
    /// A short description, for logs and error wrapping.
    pub fn message(&self) -> (r: &'static str)
        ensures
            *self == LoginError::Rejected ==> r@ == "login was not successful"@,
            *self == LoginError::MissingCookie ==> r@ == "login response carried no session cookie"@,
    {
        match self {
            LoginError::Rejected => "login was not successful",
            LoginError::MissingCookie => "login response carried no session cookie",
        }
    }
}

/// Decides a login response: a plain `200` answer means the form was served
/// again and the login failed; any other status with a session cookie is a
/// login, and the cookie's value names the session.
pub fn login_outcome(status: u16, session_cookie: Option<String>) -> (r: Result<
    String,
    LoginError,
>)
    ensures
        status == 200 ==> (r matches Err(e) && e == LoginError::Rejected),
        status != 200 ==> (session_cookie matches Some(c) ==> (r matches Ok(s) && s == c)),
        (status != 200 && session_cookie is None) ==> (r matches Err(e) && e
            == LoginError::MissingCookie),
{
    if status == 200 {
        Err(LoginError::Rejected)
    } else {
        match session_cookie {
            Some(cookie) => Ok(cookie),
            None => Err(LoginError::MissingCookie),
        }
    }
}

/// Turns the server's ordered room-name list into the room list of the
/// store: each room's index is its position.
pub fn rooms_from_names(names: Vec<String>) -> (r: Vec<Room>)
    requires
        names@.len() < usize::MAX,
    ensures
        r.deep_view().len() == names@.len(),
        forall|i: int|
            0 <= i < names@.len() ==> (#[trigger] r.deep_view()[i]) == (RoomModel {
                name: names.deep_view()[i],
                idx: i,
            }),
{
    let mut r: Vec<Room> = Vec::new();
    let mut i: usize = 0;
    while i < names.len()
        invariant
            i <= names@.len(),
            names@.len() < usize::MAX,
            r.deep_view().len() == i,
            forall|j: int|
                0 <= j < i ==> (#[trigger] r.deep_view()[j]) == (RoomModel {
                    name: names.deep_view()[j],
                    idx: j,
                }),
        decreases names@.len() - i,
    {
        let ghost r0 = r.deep_view();
        let room = Room { name: names[i].clone(), idx: i };
        let ghost rm = room@;
        r.push(room);
        proof {
            assert(r.deep_view() =~= r0.push(rm));
        }
        i = i + 1;
    }
    r
}

/// The display position of the server's current room in the room list: the
/// first room of that name, or position `0` where the list has none.
pub fn selected_room_index(rooms: &Vec<Room>, current: &String) -> (idx: usize)
    ensures
        (exists|i: int|
            0 <= i < rooms@.len() && (#[trigger] rooms.deep_view()[i].name) == current@) ==> {
            &&& idx < rooms@.len()
            &&& rooms.deep_view()[idx as int].name == current@
            &&& forall|j: int|
                0 <= j < idx ==> (#[trigger] rooms.deep_view()[j].name) != current@
        },
        (forall|i: int|
            0 <= i < rooms@.len() ==> (#[trigger] rooms.deep_view()[i].name) != current@) ==> idx
            == 0,
{
    let mut i: usize = 0;
    while i < rooms.len()
        invariant
            i <= rooms@.len(),
            forall|j: int|
                0 <= j < i ==> (#[trigger] rooms.deep_view()[j].name) != current@,
        decreases rooms@.len() - i,
    {
        if rooms[i].name == *current {
            return i;
        }
        i = i + 1;
    }
    0
}

} // verus!
