use vstd::prelude::*;
use crate::level::{LevelName, rank};
use crate::user::{Date, age_on};

verus! {

/// Failures of the category subsystem.
#[derive(Clone, Debug, PartialEq, Eq)]
pub enum Error {
    UnknownDatabaseError(String),
    CategoryNotFound,
    CategoryAlreadyExists,
    InvalidAgeRange,
    MissingName,
    RequirementNotFound,
    UserAlreadyHasCategory,
    UserDoesNotMeetRequirements,
    LevelNotFound,
    InvalidUserAge,
    InvalidRequirementLevel,
    UserServiceError(crate::user::Error),
}

/// A skill/age class; ages are inclusive bounds.
#[derive(Debug)]
pub struct Category {
    pub id_category: u128,
    pub name: String,
    pub min_age: i32,
    pub max_age: i32,
}

/// A prerequisite of the category `id_category`: the user must hold the category
/// `id_category_requirement` at `required_level` or higher.
#[derive(Debug)]
pub struct CategoryRequirement {
    pub id_category_requirement: u128,
    pub id_category: u128,
    pub requirement_description: String,
    pub required_level: LevelName,
}

/// A user's current level in a category.
#[derive(Clone, Copy, Debug, PartialEq, Eq, Structural)]
pub struct UserCategory {
    pub id_user: u128,
    pub id_category: u128,
    pub user_level: LevelName,
}

/// What `str::trim` leaves of a string: the text without its leading and trailing whitespace.
pub uninterp spec fn trimmed(s: Seq<char>) -> Seq<char>;

/// Relies on std's `str::trim`: the result depends on the characters alone, and an empty
/// string stays empty.
#[verifier::external_body]
fn trim(s: &str) -> (r: &str)
    ensures
        r@ == trimmed(s@),
        s@.len() == 0 ==> r@.len() == 0,
{
    s.trim()
}

/// The index of the first row in `s` for `(user, cat)`.
pub open spec fn first_row(s: Seq<UserCategory>, user: u128, cat: u128) -> Option<int>
    decreases s.len(),
{
    if s.len() == 0 {
        None
    } else {
        match first_row(s.drop_last(), user, cat) {
            Some(i) => Some(i),
            None => if s.last().id_user == user && s.last().id_category == cat {
                Some(s.len() - 1)
            } else {
                None
            },
        }
    }
}

/// The index of the first category in `s` with id `id`.
pub open spec fn first_category(s: Seq<Category>, id: u128) -> Option<int>
    decreases s.len(),
{
    if s.len() == 0 {
        None
    } else {
        match first_category(s.drop_last(), id) {
            Some(i) => Some(i),
            None => if s.last().id_category == id {
                Some(s.len() - 1)
            } else {
                None
            },
        }
    }
}

pub proof fn lemma_first_row_bounds(s: Seq<UserCategory>, user: u128, cat: u128)
    ensures
        first_row(s, user, cat) matches Some(i) ==> 0 <= i < s.len() && s[i].id_user == user
            && s[i].id_category == cat,
        first_row(s, user, cat) is None <==> forall|j: int|
            0 <= j < s.len() ==> !(#[trigger] s[j].id_user == user && s[j].id_category == cat),
    decreases s.len(),
{
    if s.len() > 0 {
        lemma_first_row_bounds(s.drop_last(), user, cat);
        assert forall|j: int| 0 <= j < s.len() - 1 implies s.drop_last()[j] == s[j] by {}
    }
}

pub proof fn lemma_first_category_bounds(s: Seq<Category>, id: u128)
    ensures
        first_category(s, id) matches Some(i) ==> 0 <= i < s.len() && s[i].id_category == id,
        first_category(s, id) is None <==> forall|j: int|
            0 <= j < s.len() ==> #[trigger] s[j].id_category != id,
    decreases s.len(),
{
    if s.len() > 0 {
        lemma_first_category_bounds(s.drop_last(), id);
        assert forall|j: int| 0 <= j < s.len() - 1 implies s.drop_last()[j] == s[j] by {}
    }
}

pub proof fn lemma_first_row_prefix(s: Seq<UserCategory>, user: u128, cat: u128, n: int)
    requires
        0 <= n <= s.len(),
        first_row(s.subrange(0, n), user, cat) is Some,
    ensures
        first_row(s, user, cat) == first_row(s.subrange(0, n), user, cat),
    decreases s.len() - n,
{
    if n < s.len() {
        assert(s.drop_last().subrange(0, n) =~= s.subrange(0, n));
        lemma_first_row_prefix(s.drop_last(), user, cat, n);
    } else {
        assert(s.subrange(0, n) =~= s);
    }
}

pub proof fn lemma_first_category_prefix(s: Seq<Category>, id: u128, n: int)
    requires
        0 <= n <= s.len(),
        first_category(s.subrange(0, n), id) is Some,
    ensures
        first_category(s, id) == first_category(s.subrange(0, n), id),
    decreases s.len() - n,
{
    if n < s.len() {
        assert(s.drop_last().subrange(0, n) =~= s.subrange(0, n));
        lemma_first_category_prefix(s.drop_last(), id, n);
    } else {
        assert(s.subrange(0, n) =~= s);
    }
}

/// What a single prerequisite says of a user: `None` when it is met.
pub open spec fn requirement_verdict(
    rows: Seq<UserCategory>,
    user: u128,
    req: CategoryRequirement,
) -> Option<Error> {
    match first_row(rows, user, req.id_category_requirement) {
        None => Some(Error::UserDoesNotMeetRequirements),
        Some(i) => if rank(rows[i].user_level) < rank(req.required_level) {
            Some(Error::InvalidRequirementLevel)
        } else {
            None
        },
    }
}

/// The first failing prerequisite of `cat` among the first `n` stored requirements.
pub open spec fn requirements_verdict(
    reqs: Seq<CategoryRequirement>,
    rows: Seq<UserCategory>,
    user: u128,
    cat: u128,
    n: nat,
) -> Option<Error>
    decreases n,
{
    if n == 0 {
        None
    } else {
        match requirements_verdict(reqs, rows, user, cat, (n - 1) as nat) {
            Some(e) => Some(e),
            None => if reqs[n - 1].id_category == cat {
                requirement_verdict(rows, user, reqs[n - 1])
            } else {
                None
            },
        }
    }
}

/// Once a prefix of the requirements fails, every longer prefix fails the same way.
pub proof fn lemma_verdict_sticks(
    reqs: Seq<CategoryRequirement>,
    rows: Seq<UserCategory>,
    user: u128,
    cat: u128,
    n: nat,
    m: nat,
)
    requires
        n <= m,
        requirements_verdict(reqs, rows, user, cat, n) is Some,
    ensures
        requirements_verdict(reqs, rows, user, cat, m) == requirements_verdict(reqs, rows, user, cat, n),
    decreases m - n,
{
    if n < m {
        lemma_verdict_sticks(reqs, rows, user, cat, n, (m - 1) as nat);
    }
}

/// The categories, their prerequisites and the users' levels in them.
pub struct CategoryBook {
    pub categories: Vec<Category>,
    pub requirements: Vec<CategoryRequirement>,
    pub user_categories: Vec<UserCategory>,
}

impl CategoryBook {
    /// The outcome of the eligibility check of `user`, aged `age`, for `cat`.
    pub open spec fn eligibility(self, user: u128, cat: u128, age: int) -> Result<(), Error> {
        match first_category(self.categories@, cat) {
            None => Err(Error::CategoryNotFound),
            Some(i) => if age < self.categories@[i].min_age || age > self.categories@[i].max_age {
                Err(Error::InvalidUserAge)
            } else {
                match requirements_verdict(
                    self.requirements@,
                    self.user_categories@,
                    user,
                    cat,
                    self.requirements@.len(),
                ) {
                    Some(e) => Err(e),
                    None => Ok(()),
                }
            },
        }
    }

    /// What adding `user`, born on `birth`, to `cat` as of `today` returns: a user who
    /// already holds the category is refused, any other goes through the eligibility check.
    pub open spec fn joining_result(self, user: u128, cat: u128, birth: Date, today: Date) -> Result<(), Error> {
        if self.level_of(user, cat) is Some {
            Err(Error::UserAlreadyHasCategory)
        } else {
            self.eligibility(user, cat, age_on(today, birth))
        }
    }

    /// The user's level in `cat`, if they hold it.
    pub open spec fn level_of(self, user: u128, cat: u128) -> Option<LevelName> {
        match first_row(self.user_categories@, user, cat) {
            Some(i) => Some(self.user_categories@[i].user_level),
            None => None,
        }
    }

    pub fn new() -> (r: CategoryBook)
        ensures
            r.categories@.len() == 0,
            r.requirements@.len() == 0,
            r.user_categories@.len() == 0,
    {
        CategoryBook { categories: Vec::new(), requirements: Vec::new(), user_categories: Vec::new() }
    }

    fn category_index(&self, id: u128) -> (r: Option<usize>)
        ensures
            r matches Some(i) ==> first_category(self.categories@, id) == Some(i as int)
                && i < self.categories@.len(),
            r is None ==> first_category(self.categories@, id) is None,
    {
        let mut i: usize = 0;
        while i < self.categories.len()
            invariant
                i <= self.categories@.len(),
                first_category(self.categories@.subrange(0, i as int), id) is None,
            decreases self.categories@.len() - i,
        {
            let ghost s = self.categories@;
            assert(s.subrange(0, i + 1).drop_last() =~= s.subrange(0, i as int));
            if self.categories[i].id_category == id {
                proof { lemma_first_category_prefix(s, id, i + 1); }
                return Some(i);
            }
            i = i + 1;
        }
        assert(self.categories@.subrange(0, i as int) =~= self.categories@);
        None
    }

    fn row_index(&self, user: u128, cat: u128) -> (r: Option<usize>)
        ensures
            r matches Some(i) ==> first_row(self.user_categories@, user, cat) == Some(i as int)
                && i < self.user_categories@.len(),
            r is None ==> first_row(self.user_categories@, user, cat) is None,
    {
        let mut i: usize = 0;
        while i < self.user_categories.len()
            invariant
                i <= self.user_categories@.len(),
                first_row(self.user_categories@.subrange(0, i as int), user, cat) is None,
            decreases self.user_categories@.len() - i,
        {
            let ghost s = self.user_categories@;
            assert(s.subrange(0, i + 1).drop_last() =~= s.subrange(0, i as int));
            let row = &self.user_categories[i];
            if row.id_user == user && row.id_category == cat {
                proof { lemma_first_row_prefix(s, user, cat, i + 1); }
                return Some(i);
            }
            i = i + 1;
        }
        assert(self.user_categories@.subrange(0, i as int) =~= self.user_categories@);
        None
    }

    pub open spec fn has_name(self, name: Seq<char>) -> bool {
        exists|i: int| 0 <= i < self.categories@.len() && #[trigger] self.categories@[i].name@ == name
    }

    /// Adds a category under the identity `id`; names are unique and the age range must
    /// be non-empty (`min_age < max_age`).
    pub fn add_category(&mut self, id: u128, name: String, min_age: i32, max_age: i32) -> (r: Result<(), Error>)
        ensures
            old(self).has_name(name@) ==> r == Err::<(), Error>(Error::CategoryAlreadyExists),
            !old(self).has_name(name@) && min_age >= max_age ==> r == Err::<(), Error>(Error::InvalidAgeRange),
            !old(self).has_name(name@) && min_age < max_age ==> r is Ok,
            r is Ok ==> final(self).categories@ == old(self).categories@.push(
                Category { id_category: id, name, min_age, max_age }),
            r is Err ==> final(self).categories@ == old(self).categories@,
            final(self).requirements@ == old(self).requirements@,
            final(self).user_categories@ == old(self).user_categories@,
    {
        let mut i: usize = 0;
        while i < self.categories.len()
            invariant
                i <= self.categories@.len(),
                forall|j: int| 0 <= j < i ==> #[trigger] self.categories@[j].name@ != name@,
            decreases self.categories@.len() - i,
        {
            if self.categories[i].name == name {
                return Err(Error::CategoryAlreadyExists);
            }
            i = i + 1;
        }
        if min_age >= max_age {
            return Err(Error::InvalidAgeRange);
        }
        self.categories.push(Category { id_category: id, name, min_age, max_age });
        Ok(())
    }

    /// Replaces the stored category that has `category`'s identity: the name must not be
    /// blank and the age range must be non-empty.
    pub fn update_category(&mut self, category: Category) -> (r: Result<(), Error>)
        ensures
            first_category(old(self).categories@, category.id_category) is None
                ==> r == Err::<(), Error>(Error::CategoryNotFound),
            first_category(old(self).categories@, category.id_category) is Some && trimmed(category.name@).len() == 0
                ==> r == Err::<(), Error>(Error::MissingName),
            first_category(old(self).categories@, category.id_category) is Some && trimmed(category.name@).len() > 0
                && category.min_age >= category.max_age ==> r == Err::<(), Error>(Error::InvalidAgeRange),
            r is Err ==> final(self).categories@ == old(self).categories@,
            r is Ok ==> final(self).categories@ == old(self).categories@.update(
                first_category(old(self).categories@, category.id_category).unwrap(), category),
            r is Ok ==> category.min_age < category.max_age && trimmed(category.name@).len() > 0,
            final(self).requirements@ == old(self).requirements@,
            final(self).user_categories@ == old(self).user_categories@,
    {
        let i = match self.category_index(category.id_category) {
            Some(i) => i,
            None => return Err(Error::CategoryNotFound),
        };
        if trim(category.name.as_str()).is_empty() {
            return Err(Error::MissingName);
        }
        if category.min_age >= category.max_age {
            return Err(Error::InvalidAgeRange);
        }
        self.categories.set(i, category);
        Ok(())
    }

    /// Makes `prerequisite` at `level` a requirement of the category `cat`.
    pub fn add_category_requirement(
        &mut self,
        cat: u128,
        prerequisite: u128,
        description: String,
        level: LevelName,
    ) -> (r: Result<(), Error>)
        ensures
            first_category(old(self).categories@, cat) is None
                ==> r == Err::<(), Error>(Error::CategoryNotFound) && final(self).requirements@ == old(self).requirements@,
            first_category(old(self).categories@, cat) is Some ==> r is Ok
                && final(self).requirements@ == old(self).requirements@.push(CategoryRequirement {
                    id_category_requirement: prerequisite,
                    id_category: cat,
                    requirement_description: description,
                    required_level: level,
                }),
            final(self).categories@ == old(self).categories@,
            final(self).user_categories@ == old(self).user_categories@,
    {
        if self.category_index(cat).is_none() {
            return Err(Error::CategoryNotFound);
        }
        self.requirements.push(CategoryRequirement {
            id_category_requirement: prerequisite,
            id_category: cat,
            requirement_description: description,
            required_level: level,
        });
        Ok(())
    }

    /// Sets the level of `user` in `cat`, which they must hold.
    pub fn update_user_category_level(&mut self, user: u128, cat: u128, level: LevelName) -> (r: Result<(), Error>)
        ensures
            match first_row(old(self).user_categories@, user, cat) {
                None => r == Err::<(), Error>(Error::UserDoesNotMeetRequirements)
                    && final(self).user_categories@ == old(self).user_categories@,
                Some(i) => r is Ok && final(self).user_categories@ == old(self).user_categories@.update(
                    i, UserCategory { id_user: user, id_category: cat, user_level: level }),
            },
            final(self).categories@ == old(self).categories@,
            final(self).requirements@ == old(self).requirements@,
    {
        match self.row_index(user, cat) {
            None => Err(Error::UserDoesNotMeetRequirements),
            Some(i) => {
                self.user_categories.set(i, UserCategory { id_user: user, id_category: cat, user_level: level });
                Ok(())
            },
        }
    }

    /// The category with id `id`.
    pub fn get_category_by_id(&self, id: u128) -> (r: Result<&Category, Error>)
        ensures
            match first_category(self.categories@, id) {
                Some(i) => r == Ok::<&Category, Error>(&self.categories@[i]),
                None => r == Err::<&Category, Error>(Error::CategoryNotFound),
            },
    {
        match self.category_index(id) {
            Some(i) => Ok(&self.categories[i]),
            None => Err(Error::CategoryNotFound),
        }
    }

    /// Whether `user` holds a level in `cat`.
    pub fn user_has_category(&self, user: u128, cat: u128) -> (r: bool)
        ensures
            r == self.level_of(user, cat) is Some,
    {
        self.row_index(user, cat).is_some()
    }

    /// The user's level in `cat`, if they hold it.
    pub fn get_user_category(&self, user: u128, cat: u128) -> (r: Option<UserCategory>)
        ensures
            match self.level_of(user, cat) {
                Some(l) => r == Some(UserCategory { id_user: user, id_category: cat, user_level: l }),
                None => r is None,
            },
    {
        match self.row_index(user, cat) {
            Some(i) => {
                proof { lemma_first_row_bounds(self.user_categories@, user, cat); }
                Some(self.user_categories[i])
            },
            None => None,
        }
    }

    /// Checks that `user`, aged `age`, may join `cat`: the age range first, then each
    /// prerequisite in stored order, stopping at the first that fails.
    pub fn check_eligibility(&self, user: u128, cat: u128, age: u32) -> (r: Result<(), Error>)
        ensures
            r == self.eligibility(user, cat, age as int),
    {
        let ci = match self.category_index(cat) {
            Some(ci) => ci,
            None => return Err(Error::CategoryNotFound),
        };
        proof { lemma_first_category_bounds(self.categories@, cat); }
        let category = &self.categories[ci];
        if (age as i64) < (category.min_age as i64) || (age as i64) > (category.max_age as i64) {
            return Err(Error::InvalidUserAge);
        }
        let mut k: usize = 0;
        while k < self.requirements.len()
            invariant
                first_category(self.categories@, cat) == Some(ci as int),
                !(age < self.categories@[ci as int].min_age || age > self.categories@[ci as int].max_age),
                k <= self.requirements@.len(),
                requirements_verdict(self.requirements@, self.user_categories@, user, cat, k as nat)
                    is None,
            decreases self.requirements@.len() - k,
        {
            let req = &self.requirements[k];
            if req.id_category == cat {
                match self.row_index(user, req.id_category_requirement) {
                    Some(ri) => {
                        proof { lemma_first_row_bounds(self.user_categories@, user, req.id_category_requirement); }
                        if self.user_categories[ri].user_level.is_below(&req.required_level) {
                            proof {
                                lemma_verdict_sticks(self.requirements@, self.user_categories@, user, cat,
                                    (k + 1) as nat, self.requirements@.len());
                            }
                            return Err(Error::InvalidRequirementLevel);
                        }
                    },
                    None => {
                        proof {
                            assert(requirements_verdict(self.requirements@, self.user_categories@, user, cat,
                                (k + 1) as nat) == Some(Error::UserDoesNotMeetRequirements));
                            lemma_verdict_sticks(self.requirements@, self.user_categories@, user, cat,
                                (k + 1) as nat, self.requirements@.len());
                        }
                        return Err(Error::UserDoesNotMeetRequirements);
                    },
                }
            }
            k = k + 1;
        }
        Ok(())
    }

    /// Checks the eligibility of a user born on `birth` for `cat`, as of `today`.
    pub fn is_user_eligible_for_category(&self, user: u128, cat: u128, birth: Date, today: Date)
        -> (r: Result<(), Error>)
        ensures
            r == self.eligibility(user, cat, age_on(today, birth)),
    {
        let age = crate::user::years_since(today, birth);
        self.check_eligibility(user, cat, age)
    }

    /// Adds `user`, born on `birth`, to `cat` as of today's date.
    pub fn add_user_to_category_today(&mut self, user: u128, cat: u128, birth: Date) -> (r: Result<(), Error>)
        ensures
            exists|t: Date| t.wf() && r == old(self).joining_result(user, cat, birth, t),
            old(self).level_of(user, cat) is Some ==> r == Err::<(), Error>(Error::UserAlreadyHasCategory),
            old(self).level_of(user, cat) is None && first_category(old(self).categories@, cat) is None
                ==> r == Err::<(), Error>(Error::CategoryNotFound),
            r is Ok ==> final(self).user_categories@ == old(self).user_categories@.push(
                UserCategory { id_user: user, id_category: cat, user_level: LevelName::BEGGINER },
            ),
            r is Err ==> final(self).user_categories@ == old(self).user_categories@,
            final(self).categories@ == old(self).categories@,
            final(self).requirements@ == old(self).requirements@,
    {
        let today = crate::clock::today();
        self.add_user_to_category(user, cat, birth, today)
    }

    /// Adds `user` to `cat` at the lowest level, when they do not hold it yet and are eligible.
    pub fn add_user_to_category(&mut self, user: u128, cat: u128, birth: Date, today: Date)
        -> (r: Result<(), Error>)
        ensures
            r == old(self).joining_result(user, cat, birth, today),
            r is Ok ==> final(self).user_categories@ == old(self).user_categories@.push(
                UserCategory { id_user: user, id_category: cat, user_level: LevelName::BEGGINER },
            ),
            r is Err ==> final(self).user_categories@ == old(self).user_categories@,
            final(self).categories@ == old(self).categories@,
            final(self).requirements@ == old(self).requirements@,
    {
        if self.user_has_category(user, cat) {
            return Err(Error::UserAlreadyHasCategory);
        }
        let verdict = self.is_user_eligible_for_category(user, cat, birth, today);
        if verdict.is_err() {
            return verdict;
        }
        self.user_categories.push(UserCategory { id_user: user, id_category: cat, user_level: LevelName::BEGGINER });
        Ok(())
    }
}

} // verus!

verus! {

proof fn lemma_prerequisites_met(book: CategoryBook, user: u128, cat: u128, l: LevelName, n: nat)
    requires
        n <= book.requirements@.len(),
        forall|j: int| 0 <= j < book.requirements@.len() && (#[trigger] book.requirements@[j]).id_category == cat
            ==> rank(book.requirements@[j].required_level) <= rank(l)
                && (book.level_of(user, book.requirements@[j].id_category_requirement) matches Some(ul)
                && rank(ul) >= rank(l)),
    ensures
        requirements_verdict(book.requirements@, book.user_categories@, user, cat, n) is None,
    decreases n,
{
    if n > 0 {
        lemma_prerequisites_met(book, user, cat, l, (n - 1) as nat);
        let req = book.requirements@[n - 1];
        if req.id_category == cat {
            lemma_first_row_bounds(book.user_categories@, user, req.id_category_requirement);
        }
    }
}

/// A user who holds every prerequisite of a category at level `l` or higher is eligible
/// for it, at any age in its range, as long as no prerequisite asks for more than `l`.
pub proof fn lemma_eligibility_monotone(book: CategoryBook, user: u128, cat: u128, age: int, l: LevelName)
    requires
        first_category(book.categories@, cat) matches Some(i)
            && book.categories@[i].min_age <= age <= book.categories@[i].max_age,
        forall|j: int| 0 <= j < book.requirements@.len() && (#[trigger] book.requirements@[j]).id_category == cat
            ==> rank(book.requirements@[j].required_level) <= rank(l)
                && (book.level_of(user, book.requirements@[j].id_category_requirement) matches Some(ul)
                && rank(ul) >= rank(l)),
    ensures
        book.eligibility(user, cat, age) == Ok::<(), Error>(()),
{
    lemma_prerequisites_met(book, user, cat, l, book.requirements@.len());
}

} // verus!
