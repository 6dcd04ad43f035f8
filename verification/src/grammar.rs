//! The grammar of the instructions that agents relay: user identifiers,
//! mappings of users to local accounts, and the instructions themselves,
//! each with its textual form.

use vstd::prelude::*;
use crate::error::Error;
use crate::text::{
    after_first, before_first, concat, find_from, is_trimmed, lemma_index_of, lemma_split_concat,
    lemma_split_none, lemma_split_pieces, lemma_trim, lemma_trim_within, same_text, split,
    split_text, substring, to_chars, trim, trimmed, views,
};

verus! {

/// A user as a triple of character sequences.
pub struct UserIdentifierView {
    pub username: Seq<char>,
    pub project: Seq<char>,
    pub portal: Seq<char>,
}

/// A component of an identifier as it is kept: trimmed, and free of the dot
/// that separates components.
pub open spec fn is_component(s: Seq<char>) -> bool {
    is_trimmed(s) && !s.contains('.')
}

impl UserIdentifierView {
    /// Every identifier that exists has components of this shape.
    pub open spec fn wf(self) -> bool {
        is_component(self.username) && is_component(self.project) && is_component(self.portal)
    }

    /// All three components are present.
    pub open spec fn is_valid(self) -> bool {
        self.username.len() > 0 && self.project.len() > 0 && self.portal.len() > 0
    }

    /// The textual form `username.project.portal`.
    pub open spec fn text(self) -> Seq<char> {
        self.username + seq!['.'] + self.project + seq!['.'] + self.portal
    }
}

/// The user that `s` denotes: three dot-separated components, each non-empty
/// once trimmed. `None` where `s` has another shape.
pub open spec fn parse_user(s: Seq<char>) -> Option<UserIdentifierView> {
    let parts = split(s, '.');
    if parts.len() != 3 {
        None
    } else {
        let user = UserIdentifierView {
            username: trim(parts[0]),
            project: trim(parts[1]),
            portal: trim(parts[2]),
        };
        if user.is_valid() {
            Some(user)
        } else {
            None
        }
    }
}

/// A user identifier: the triple `username.project.portal`.
#[derive(Debug, PartialEq, Eq, Hash)]
pub struct UserIdentifier {
    username: String,
    project: String,
    portal: String,
}

impl View for UserIdentifier {
    type V = UserIdentifierView;

    closed spec fn view(&self) -> UserIdentifierView {
        UserIdentifierView {
            username: self.username@,
            project: self.project@,
            portal: self.portal@,
        }
    }
}

impl Default for UserIdentifier {
    /// The empty identifier, which is not valid.
    fn default() -> (r: Self)
        ensures
            r@.username.len() == 0,
            r@.project.len() == 0,
            r@.portal.len() == 0,
            r@.wf(),
    {
        UserIdentifier { username: String::new(), project: String::new(), portal: String::new() }
    }
}

impl Clone for UserIdentifier {
    fn clone(&self) -> (r: Self)
        ensures
            r@ == self@,
    {
        proof {
            use_type_invariant(self);
        }
        UserIdentifier {
            username: self.username.clone(),
            project: self.project.clone(),
            portal: self.portal.clone(),
        }
    }
}

impl UserIdentifier {
    #[verifier::type_invariant]
    spec fn inv(self) -> bool {
        self@.wf()
    }

    /// Reads `username.project.portal`. White space around a component is
    /// dropped; an identifier with another number of components, or with an
    /// empty one, is refused.
    pub fn parse(identifier: &str) -> (r: Result<Self, Error>)
        ensures
            match parse_user(identifier@) {
                Some(user) => r matches Ok(u) && u@ == user && u@.wf(),
                None => r matches Err(Error::Parse(_)),
            },
    {
        let parts = split_text(identifier, '.');
        if parts.len() != 3 {
            return Err(Error::Parse(concat("Invalid UserIdentifier: ", identifier)));
        }
        assert(views(parts@)[0] == parts[0]@ && views(parts@)[1] == parts[1]@ && views(parts@)[2]
            == parts[2]@);
        let username = trimmed(parts[0].as_str());
        let project = trimmed(parts[1].as_str());
        let portal = trimmed(parts[2].as_str());
        if username.as_str().unicode_len() == 0 {
            return Err(
                Error::Parse(
                    concat("Invalid UserIdentifier - username cannot be empty: ", identifier),
                ),
            );
        }
        if project.as_str().unicode_len() == 0 {
            return Err(
                Error::Parse(
                    concat("Invalid UserIdentifier - project cannot be empty: ", identifier),
                ),
            );
        }
        if portal.as_str().unicode_len() == 0 {
            return Err(
                Error::Parse(
                    concat("Invalid UserIdentifier - portal cannot be empty: ", identifier),
                ),
            );
        }
        proof {
            lemma_parse_user_wf(identifier@);
        }
        Ok(UserIdentifier { username, project, portal })
    }

    pub fn username(&self) -> (r: String)
        ensures
            r@ == self@.username,
    {
        self.username.clone()
    }

    pub fn project(&self) -> (r: String)
        ensures
            r@ == self@.project,
    {
        self.project.clone()
    }

    pub fn portal(&self) -> (r: String)
        ensures
            r@ == self@.portal,
    {
        self.portal.clone()
    }

    /// Whether all three components are present.
    pub fn is_valid(&self) -> (r: bool)
        ensures
            r == self@.is_valid(),
            self@.wf(),
    {
        proof {
            use_type_invariant(self);
        }
        self.username.as_str().unicode_len() > 0 && self.project.as_str().unicode_len() > 0
            && self.portal.as_str().unicode_len() > 0
    }

    /// The textual form `username.project.portal`.
    pub fn to_string(&self) -> (r: String)
        ensures
            r@ == self@.text(),
            self@.wf(),
    {
        proof {
            use_type_invariant(self);
        }
        let mut r = self.username.clone();
        r.push('.');
        r.append(self.project.as_str());
        r.push('.');
        r.append(self.portal.as_str());
        r
    }
}

/// A parsed user has components of the shape that identifiers keep.
pub proof fn lemma_parse_user_wf(s: Seq<char>)
    ensures
        parse_user(s) matches Some(u) ==> u.wf() && u.is_valid(),
{
    let parts = split(s, '.');
    if parts.len() == 3 {
        lemma_split_pieces(s, '.');
        assert(!parts[0].contains('.'));
        assert(!parts[1].contains('.'));
        assert(!parts[2].contains('.'));
        lemma_trim(parts[0]);
        lemma_trim(parts[1]);
        lemma_trim(parts[2]);
        lemma_trim_within(parts[0], '.');
        lemma_trim_within(parts[1], '.');
        lemma_trim_within(parts[2], '.');
    }
}

/// The textual form of a valid user reads back as that user.
pub proof fn law_user_round_trip(u: UserIdentifierView)
    requires
        u.wf(),
        u.is_valid(),
    ensures
        parse_user(u.text()) == Some(u),
{
    let tail = u.project + seq!['.'] + u.portal;
    assert(u.text() =~= u.username + seq!['.'] + tail);
    lemma_split_concat(u.username, '.', tail);
    lemma_split_concat(u.project, '.', u.portal);
    lemma_split_none(u.portal, '.');
    assert(split(u.text(), '.') =~= seq![u.username, u.project, u.portal]);
    lemma_trim(u.username);
    lemma_trim(u.project);
    lemma_trim(u.portal);
}

/// A user together with the account and project that stand for it locally.
pub struct UserMappingView {
    pub user: UserIdentifierView,
    pub local_user: Seq<char>,
    pub local_project: Seq<char>,
}

impl UserMappingView {
    /// Every mapping that exists has a user of the kept shape and trimmed
    /// local names.
    pub open spec fn wf(self) -> bool {
        self.user.wf() && is_trimmed(self.local_user) && is_trimmed(self.local_project)
    }

    /// The user is valid and both local names are present.
    pub open spec fn is_valid(self) -> bool {
        self.user.is_valid() && self.local_user.len() > 0 && self.local_project.len() > 0
    }

    /// The textual form `username.project.portal:local_user:local_project`.
    pub open spec fn text(self) -> Seq<char> {
        self.user.text() + seq![':'] + self.local_user + seq![':'] + self.local_project
    }

    /// No part holds the colon that separates the parts of the textual form.
    pub open spec fn colon_free(self) -> bool {
        !self.user.text().contains(':') && !self.local_user.contains(':')
            && !self.local_project.contains(':')
    }
}

/// The mapping of `user` to the given local names, which are trimmed; `None`
/// where one of them is then empty.
pub open spec fn make_mapping(
    user: UserIdentifierView,
    local_user: Seq<char>,
    local_project: Seq<char>,
) -> Option<UserMappingView> {
    if trim(local_user).len() == 0 || trim(local_project).len() == 0 {
        None
    } else {
        Some(
            UserMappingView {
                user,
                local_user: trim(local_user),
                local_project: trim(local_project),
            },
        )
    }
}

/// The mapping that `s` denotes: three colon-separated parts, a user and two
/// local names. `None` where `s` has another shape.
pub open spec fn parse_mapping(s: Seq<char>) -> Option<UserMappingView> {
    let parts = split(s, ':');
    if parts.len() != 3 {
        None
    } else {
        match parse_user(parts[0]) {
            Some(user) => make_mapping(user, parts[1], parts[2]),
            None => None,
        }
    }
}

/// The mapping of a user to a local user name and a local project.
#[derive(Debug, PartialEq)]
pub struct UserMapping {
    user: UserIdentifier,
    local_user: String,
    local_project: String,
}

impl View for UserMapping {
    type V = UserMappingView;

    closed spec fn view(&self) -> UserMappingView {
        UserMappingView {
            user: self.user@,
            local_user: self.local_user@,
            local_project: self.local_project@,
        }
    }
}

impl Default for UserMapping {
    /// The empty mapping, which is not valid.
    fn default() -> (r: Self)
        ensures
            !r@.is_valid(),
            r@.wf(),
    {
        let user = UserIdentifier::default();
        UserMapping { user, local_user: String::new(), local_project: String::new() }
    }
}

impl Clone for UserMapping {
    fn clone(&self) -> (r: Self)
        ensures
            r@ == self@,
    {
        proof {
            use_type_invariant(self);
        }
        let user = self.user.clone();
        UserMapping {
            user,
            local_user: self.local_user.clone(),
            local_project: self.local_project.clone(),
        }
    }
}

impl UserMapping {
    #[verifier::type_invariant]
    spec fn inv(self) -> bool {
        self@.wf()
    }

    /// Maps `user` to the given local names. White space around a name is
    /// dropped; an empty name is refused.
    pub fn new(user: &UserIdentifier, local_user: &str, local_project: &str) -> (r: Result<
        Self,
        Error,
    >)
        ensures
            match make_mapping(user@, local_user@, local_project@) {
                Some(m) => r matches Ok(x) && x@ == m && x@.wf(),
                None => r matches Err(Error::Parse(_)),
            },
    {
        proof {
            lemma_trim(local_user@);
            lemma_trim(local_project@);
        }
        let local_user = trimmed(local_user);
        let local_project = trimmed(local_project);
        if local_user.as_str().unicode_len() == 0 {
            return Err(
                Error::Parse(
                    concat(
                        "Invalid UserMapping - local_user cannot be empty: ",
                        local_user.as_str(),
                    ),
                ),
            );
        }
        if local_project.as_str().unicode_len() == 0 {
            return Err(
                Error::Parse(
                    concat(
                        "Invalid UserMapping - local_project cannot be empty: ",
                        local_project.as_str(),
                    ),
                ),
            );
        }
        let user = user.clone();
        proof {
            use_type_invariant(&user);
        }
        Ok(UserMapping { user, local_user, local_project })
    }

    /// Reads `username.project.portal:local_user:local_project`.
    pub fn parse(identifier: &str) -> (r: Result<Self, Error>)
        ensures
            match parse_mapping(identifier@) {
                Some(m) => r matches Ok(x) && x@ == m && x@.wf(),
                None => r matches Err(Error::Parse(_)),
            },
    {
        let parts = split_text(identifier, ':');
        if parts.len() != 3 {
            return Err(Error::Parse(concat("Invalid UserMapping: ", identifier)));
        }
        assert(views(parts@)[0] == parts[0]@ && views(parts@)[1] == parts[1]@ && views(parts@)[2]
            == parts[2]@);
        match UserIdentifier::parse(parts[0].as_str()) {
            Ok(user) => UserMapping::new(&user, parts[1].as_str(), parts[2].as_str()),
            Err(e) => Err(e),
        }
    }

    pub fn user(&self) -> (r: &UserIdentifier)
        ensures
            r@ == self@.user,
    {
        &self.user
    }

    pub fn local_user(&self) -> (r: &str)
        ensures
            r@ == self@.local_user,
    {
        self.local_user.as_str()
    }

    pub fn local_project(&self) -> (r: &str)
        ensures
            r@ == self@.local_project,
    {
        self.local_project.as_str()
    }

    /// Whether the user is valid and both local names are present.
    pub fn is_valid(&self) -> (r: bool)
        ensures
            r == self@.is_valid(),
            self@.wf(),
    {
        proof {
            use_type_invariant(self);
        }
        self.user.is_valid() && self.local_user.as_str().unicode_len() > 0
            && self.local_project.as_str().unicode_len() > 0
    }

    /// The textual form `username.project.portal:local_user:local_project`.
    pub fn to_string(&self) -> (r: String)
        ensures
            r@ == self@.text(),
            self@.wf(),
    {
        proof {
            use_type_invariant(self);
        }
        let mut r = self.user.to_string();
        r.push(':');
        r.append(self.local_user.as_str());
        r.push(':');
        r.append(self.local_project.as_str());
        r
    }
}

/// The textual form of a valid mapping reads back as that mapping, unless
/// one of its parts holds a colon.
pub proof fn law_mapping_round_trip(m: UserMappingView)
    requires
        m.wf(),
        m.is_valid(),
        m.colon_free(),
    ensures
        parse_mapping(m.text()) == Some(m),
{
    let tail = m.local_user + seq![':'] + m.local_project;
    assert(m.text() =~= m.user.text() + seq![':'] + tail);
    lemma_split_concat(m.user.text(), ':', tail);
    lemma_split_concat(m.local_user, ':', m.local_project);
    lemma_split_none(m.local_project, ':');
    assert(split(m.text(), ':') =~= seq![m.user.text(), m.local_user, m.local_project]);
    law_user_round_trip(m.user);
    lemma_trim(m.local_user);
    lemma_trim(m.local_project);
}

/// An instruction as a value of character sequences.
pub enum InstructionView {
    AddUser(UserIdentifierView),
    RemoveUser(UserIdentifierView),
    AddLocalUser(UserMappingView),
    RemoveLocalUser(UserMappingView),
    UpdateHomeDir(UserIdentifierView, Seq<char>),
    Invalid,
}

impl InstructionView {
    /// The users and mappings inside have the shape that is kept.
    pub open spec fn wf(self) -> bool {
        match self {
            InstructionView::AddUser(u) => u.wf(),
            InstructionView::RemoveUser(u) => u.wf(),
            InstructionView::AddLocalUser(m) => m.wf(),
            InstructionView::RemoveLocalUser(m) => m.wf(),
            InstructionView::UpdateHomeDir(u, _) => u.wf(),
            InstructionView::Invalid => true,
        }
    }

    /// The instruction names an action and all that the action needs.
    pub open spec fn is_valid(self) -> bool {
        match self {
            InstructionView::AddUser(u) => u.is_valid(),
            InstructionView::RemoveUser(u) => u.is_valid(),
            InstructionView::AddLocalUser(m) => m.is_valid(),
            InstructionView::RemoveLocalUser(m) => m.is_valid(),
            InstructionView::UpdateHomeDir(u, homedir) => u.is_valid() && homedir.len() > 0,
            InstructionView::Invalid => false,
        }
    }

    /// The textual form: the verb, a space, and the arguments.
    pub open spec fn text(self) -> Seq<char> {
        match self {
            InstructionView::AddUser(u) => "add_user"@ + seq![' '] + u.text(),
            InstructionView::RemoveUser(u) => "remove_user"@ + seq![' '] + u.text(),
            InstructionView::AddLocalUser(m) => "add_local_user"@ + seq![' '] + m.text(),
            InstructionView::RemoveLocalUser(m) => "remove_local_user"@ + seq![' '] + m.text(),
            InstructionView::UpdateHomeDir(u, homedir) => "update_homedir"@ + seq![' '] + u.text()
                + seq![' '] + homedir,
            InstructionView::Invalid => "invalid"@,
        }
    }

    /// The instructions whose textual form says all that they hold: a
    /// mapping without a colon in its parts; a home directory that is
    /// trimmed and, like its user, free of spaces.
    pub open spec fn is_printable(self) -> bool {
        match self {
            InstructionView::AddUser(_) => true,
            InstructionView::RemoveUser(_) => true,
            InstructionView::AddLocalUser(m) => m.colon_free(),
            InstructionView::RemoveLocalUser(m) => m.colon_free(),
            InstructionView::UpdateHomeDir(u, homedir) => !u.text().contains(' ')
                && !homedir.contains(' ') && is_trimmed(homedir),
            InstructionView::Invalid => false,
        }
    }
}

/// `AddUser` or `RemoveUser` of the user that `rest` denotes, `Invalid` where
/// it denotes none.
pub open spec fn user_instruction(add: bool, rest: Seq<char>) -> InstructionView {
    match parse_user(rest) {
        Some(u) => if add {
            InstructionView::AddUser(u)
        } else {
            InstructionView::RemoveUser(u)
        },
        None => InstructionView::Invalid,
    }
}

/// `AddLocalUser` or `RemoveLocalUser` of the mapping that `rest` denotes,
/// `Invalid` where it denotes none.
pub open spec fn mapping_instruction(add: bool, rest: Seq<char>) -> InstructionView {
    match parse_mapping(rest) {
        Some(m) => if add {
            InstructionView::AddLocalUser(m)
        } else {
            InstructionView::RemoveLocalUser(m)
        },
        None => InstructionView::Invalid,
    }
}

/// `UpdateHomeDir` from the space-separated words of an instruction: the
/// second word is the user, the third the home directory; further words are
/// ignored. `Invalid` where a word is missing or empty.
pub open spec fn homedir_instruction(words: Seq<Seq<char>>) -> InstructionView {
    if words.len() < 3 || trim(words[2]).len() == 0 {
        InstructionView::Invalid
    } else {
        match parse_user(words[1]) {
            Some(u) => InstructionView::UpdateHomeDir(u, trim(words[2])),
            None => InstructionView::Invalid,
        }
    }
}

/// The instruction that `s` denotes. The verb is what precedes the first
/// space. Text that follows no rule denotes `Invalid`.
pub open spec fn parse_instruction(s: Seq<char>) -> InstructionView {
    let verb = before_first(s, ' ');
    let rest = after_first(s, ' ');
    if verb == "add_user"@ {
        user_instruction(true, rest)
    } else if verb == "remove_user"@ {
        user_instruction(false, rest)
    } else if verb == "add_local_user"@ {
        mapping_instruction(true, rest)
    } else if verb == "remove_local_user"@ {
        mapping_instruction(false, rest)
    } else if verb == "update_homedir"@ {
        homedir_instruction(split(s, ' '))
    } else {
        InstructionView::Invalid
    }
}

/// The instructions that can be sent to agents.
#[derive(Debug, PartialEq)]
pub enum Instruction {
    /// Add a user.
    AddUser(UserIdentifier),
    /// Remove a user.
    RemoveUser(UserIdentifier),
    /// Add a local user.
    AddLocalUser(UserMapping),
    /// Remove a local user.
    RemoveLocalUser(UserMapping),
    /// Update the home directory of a user.
    UpdateHomeDir(UserIdentifier, String),
    /// What text that is no instruction denotes.
    Invalid(),
}

impl View for Instruction {
    type V = InstructionView;

    open spec fn view(&self) -> InstructionView {
        match self {
            Instruction::AddUser(u) => InstructionView::AddUser(u@),
            Instruction::RemoveUser(u) => InstructionView::RemoveUser(u@),
            Instruction::AddLocalUser(m) => InstructionView::AddLocalUser(m@),
            Instruction::RemoveLocalUser(m) => InstructionView::RemoveLocalUser(m@),
            Instruction::UpdateHomeDir(u, homedir) => InstructionView::UpdateHomeDir(u@, homedir@),
            Instruction::Invalid() => InstructionView::Invalid,
        }
    }
}

impl Default for Instruction {
    fn default() -> (r: Self)
        ensures
            r@ == InstructionView::Invalid,
    {
        Instruction::Invalid()
    }
}

impl Clone for Instruction {
    fn clone(&self) -> (r: Self)
        ensures
            r@ == self@,
    {
        match self {
            Instruction::AddUser(u) => Instruction::AddUser(u.clone()),
            Instruction::RemoveUser(u) => Instruction::RemoveUser(u.clone()),
            Instruction::AddLocalUser(m) => Instruction::AddLocalUser(m.clone()),
            Instruction::RemoveLocalUser(m) => Instruction::RemoveLocalUser(m.clone()),
            Instruction::UpdateHomeDir(u, homedir) => Instruction::UpdateHomeDir(
                u.clone(),
                homedir.clone(),
            ),
            Instruction::Invalid() => Instruction::Invalid(),
        }
    }
}

impl Instruction {
    /// Reads an instruction. Reading is total: text that is no instruction
    /// gives `Invalid`.
    pub fn new(s: &str) -> (r: Self)
        ensures
            r@ == parse_instruction(s@),
            r@.wf(),
    {
        let v = to_chars(s);
        let i = find_from(&v, 0, ' ');
        proof {
            assert(v@.skip(0) =~= v@);
            lemma_index_of(v@, ' ');
            assert(v@.subrange(0, i as int) =~= before_first(s@, ' '));
        }
        let verb = substring(&v, 0, i);
        let rest = if i < v.len() {
            proof {
                assert(v@.subrange(i + 1, v.len() as int) =~= after_first(s@, ' '));
            }
            substring(&v, i + 1, v.len())
        } else {
            String::new()
        };
        if same_text(verb.as_str(), "add_user") {
            match UserIdentifier::parse(rest.as_str()) {
                Ok(user) => Instruction::AddUser(user),
                Err(_) => Instruction::Invalid(),
            }
        } else if same_text(verb.as_str(), "remove_user") {
            match UserIdentifier::parse(rest.as_str()) {
                Ok(user) => Instruction::RemoveUser(user),
                Err(_) => Instruction::Invalid(),
            }
        } else if same_text(verb.as_str(), "add_local_user") {
            match UserMapping::parse(rest.as_str()) {
                Ok(mapping) => Instruction::AddLocalUser(mapping),
                Err(_) => Instruction::Invalid(),
            }
        } else if same_text(verb.as_str(), "remove_local_user") {
            match UserMapping::parse(rest.as_str()) {
                Ok(mapping) => Instruction::RemoveLocalUser(mapping),
                Err(_) => Instruction::Invalid(),
            }
        } else if same_text(verb.as_str(), "update_homedir") {
            let words = split_text(s, ' ');
            if words.len() < 3 {
                return Instruction::Invalid();
            }
            assert(views(words@)[1] == words[1]@ && views(words@)[2] == words[2]@);
            let homedir = trimmed(words[2].as_str());
            if homedir.as_str().unicode_len() == 0 {
                return Instruction::Invalid();
            }
            match UserIdentifier::parse(words[1].as_str()) {
                Ok(user) => Instruction::UpdateHomeDir(user, homedir),
                Err(_) => Instruction::Invalid(),
            }
        } else {
            Instruction::Invalid()
        }
    }

    /// Whether the instruction names an action and all that the action
    /// needs.
    pub fn is_valid(&self) -> (r: bool)
        ensures
            r == self@.is_valid(),
            self@.wf(),
    {
        match self {
            Instruction::AddUser(user) => user.is_valid(),
            Instruction::RemoveUser(user) => user.is_valid(),
            Instruction::AddLocalUser(mapping) => mapping.is_valid(),
            Instruction::RemoveLocalUser(mapping) => mapping.is_valid(),
            Instruction::UpdateHomeDir(user, homedir) => user.is_valid()
                && homedir.as_str().unicode_len() > 0,
            Instruction::Invalid() => false,
        }
    }

    /// The textual form, which `new` reads.
    pub fn to_string(&self) -> (r: String)
        ensures
            r@ == self@.text(),
            self@.wf(),
    {
        match self {
            Instruction::AddUser(user) => verb_and("add_user", user.to_string().as_str()),
            Instruction::RemoveUser(user) => verb_and("remove_user", user.to_string().as_str()),
            Instruction::AddLocalUser(mapping) => verb_and(
                "add_local_user",
                mapping.to_string().as_str(),
            ),
            Instruction::RemoveLocalUser(mapping) => verb_and(
                "remove_local_user",
                mapping.to_string().as_str(),
            ),
            Instruction::UpdateHomeDir(user, homedir) => {
                let mut r = verb_and("update_homedir", user.to_string().as_str());
                r.push(' ');
                r.append(homedir.as_str());
                r
            },
            Instruction::Invalid() => "invalid".to_owned(),
        }
    }
}

/// A verb, a space, and what the verb applies to.
fn verb_and(verb: &str, arguments: &str) -> (r: String)
    ensures
        r@ == verb@ + seq![' '] + arguments@,
{
    let mut r = verb.to_owned();
    r.push(' ');
    r.append(arguments);
    r
}

/// What the five verbs are, character by character: none holds a space, and
/// no two are the same.
proof fn lemma_verbs()
    ensures
        !"add_user"@.contains(' '),
        !"remove_user"@.contains(' '),
        !"add_local_user"@.contains(' '),
        !"remove_local_user"@.contains(' '),
        !"update_homedir"@.contains(' '),
        "add_user"@.len() == 8,
        "remove_user"@.len() == 11,
        "add_local_user"@.len() == 14,
        "remove_local_user"@.len() == 17,
        "update_homedir"@.len() == 14,
        "add_local_user"@[0] == 'a',
        "update_homedir"@[0] == 'u',
{
    reveal_strlit("add_user");
    reveal_strlit("remove_user");
    reveal_strlit("add_local_user");
    reveal_strlit("remove_local_user");
    reveal_strlit("update_homedir");
}

/// Reading the textual form of an instruction gives the instruction back,
/// for every valid instruction whose textual form says all that it holds.
pub proof fn law_instruction_round_trip(i: InstructionView)
    requires
        i.wf(),
        i.is_valid(),
        i.is_printable(),
    ensures
        parse_instruction(i.text()) == i,
{
    lemma_verbs();
    match i {
        InstructionView::AddUser(u) => {
            lemma_split_concat("add_user"@, ' ', u.text());
            law_user_round_trip(u);
        },
        InstructionView::RemoveUser(u) => {
            lemma_split_concat("remove_user"@, ' ', u.text());
            law_user_round_trip(u);
        },
        InstructionView::AddLocalUser(m) => {
            lemma_split_concat("add_local_user"@, ' ', m.text());
            law_mapping_round_trip(m);
        },
        InstructionView::RemoveLocalUser(m) => {
            lemma_split_concat("remove_local_user"@, ' ', m.text());
            law_mapping_round_trip(m);
        },
        InstructionView::UpdateHomeDir(u, homedir) => {
            let tail = u.text() + seq![' '] + homedir;
            assert(i.text() =~= "update_homedir"@ + seq![' '] + tail);
            lemma_split_concat("update_homedir"@, ' ', tail);
            lemma_split_concat(u.text(), ' ', homedir);
            lemma_split_none(homedir, ' ');
            assert(split(i.text(), ' ') =~= seq!["update_homedir"@, u.text(), homedir]);
            law_user_round_trip(u);
            lemma_trim(homedir);
        },
        InstructionView::Invalid => {},
    }
}

} // verus!
