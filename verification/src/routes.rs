//! Query and request types of the course routes, and the sort/limit logic
//! they carry.  Parsing the HTTP query string happens outside this crate;
//! the types here hold the already decoded values.

use crate::course::Difficulty;
use vstd::prelude::*;

verus! {

/// Default used by the query decoder for flags that are on unless given.
pub fn is_true() -> (r: bool)
    ensures
        r,
{
    true
}

/// A sort key of the course listing.
#[derive(Clone, Copy, Debug, PartialEq, Eq, Structural)]
pub enum SortValue {
    LastModified,
    Uploaded,
    CourseHeaderTitle,
    Votes,
}

/// One sort criterion: a key and a direction (`1` ascending, `-1`
/// descending).
#[derive(Clone, Copy, Debug, PartialEq, Eq, Structural)]
pub struct Sort {
    pub val: SortValue,
    pub dir: i32,
}

impl Default for Sort {
    fn default() -> (r: Sort)
        ensures
            r == (Sort { val: SortValue::LastModified, dir: -1i32 }),
    {
        Sort { val: SortValue::LastModified, dir: -1 }
    }
}

/// A decoded course listing query.
pub struct GetCourses2 {
    /// Maximum number of courses to return, between 1 and 120.
    pub limit: u32,
    /// Courses to skip over.
    pub skip: Option<u32>,
    pub id: Option<String>,
    pub ids: Option<Vec<String>>,
    pub title: Option<String>,
    pub title_exact: bool,
    pub title_case_sensitive: bool,
    pub title_trimmed: bool,
    pub owner: Option<String>,
    pub uploader: Option<String>,
    pub sort: Option<Vec<Sort>>,
    pub difficulty: Option<Difficulty>,
}

/// The sort criteria a query's sort field starts from: the requested ones,
/// or the default ordering by last modification.
pub open spec fn sort_base(sort: Option<Vec<Sort>>) -> Seq<Sort> {
    if sort is Some {
        sort.unwrap()@
    } else {
        seq![(Sort { val: SortValue::LastModified, dir: -1i32 })]
    }
}

/// Some criterion sorts by title.
pub open spec fn has_title_sort(s: Seq<Sort>) -> bool {
    exists|j: int| 0 <= j < s.len() && (#[trigger] s[j]).val == SortValue::CourseHeaderTitle
}

/// The sort criteria a query's sort field resolves to: the requested
/// criteria or the default, with a title tiebreaker appended when none of
/// them sorts by title.
pub open spec fn applied_sort(sort: Option<Vec<Sort>>, r: Seq<Sort>) -> bool {
    if has_title_sort(sort_base(sort)) {
        r == sort_base(sort)
    } else {
        r == sort_base(sort).push((Sort { val: SortValue::CourseHeaderTitle, dir: -1i32 }))
    }
}

impl GetCourses2 {
    /// The sort criteria actually applied: the requested ones, or the
    /// default; a title tiebreaker is appended when none was requested.
    pub fn get_sort(&self) -> (r: Vec<Sort>)
        ensures
            applied_sort(self.sort, r@),
    {
        let mut res: Vec<Sort> = Vec::new();
        match &self.sort {
            Some(v) => {
                let mut i: usize = 0;
                while i < v.len()
                    invariant
                        i <= v@.len(),
                        res@ == v@.take(i as int),
                    decreases v@.len() - i,
                {
                    res.push(v[i]);
                    proof {
                        assert(res@ =~= v@.take(i + 1));
                    }
                    i = i + 1;
                }
                proof {
                    assert(v@.take(v@.len() as int) =~= v@);
                }
            },
            None => {
                res.push(Sort { val: SortValue::LastModified, dir: -1i32 });
                proof {
                    assert(res@ =~= seq![(Sort { val: SortValue::LastModified, dir: -1i32 })]);
                }
            },
        }
        let mut found = false;
        let mut i: usize = 0;
        let n = res.len();
        while i < n
            invariant
                i <= n,
                n == res@.len(),
                found ==> exists|j: int|
                    0 <= j < res@.len() && (#[trigger] res@[j]).val == SortValue::CourseHeaderTitle,
                !found ==> forall|j: int|
                    0 <= j < i ==> (#[trigger] res@[j]).val != SortValue::CourseHeaderTitle,
            decreases n - i,
        {
            if matches!(res[i].val, SortValue::CourseHeaderTitle) {
                proof {
                    assert(res@[i as int].val == SortValue::CourseHeaderTitle);
                }
                found = true;
            }
            i = i + 1;
        }
        let ghost base_g = res@;
        proof {
            assert(base_g == sort_base(self.sort));
            if found {
                assert(has_title_sort(base_g));
            } else {
                assert(!has_title_sort(base_g));
            }
        }
        if !found {
            res.push(Sort { val: SortValue::CourseHeaderTitle, dir: -1 });
        }
        proof {
            assert(applied_sort(self.sort, res@));
        }
        res
    }

    /// The record window the storage query must cover: the limit plus
    /// whatever is skipped.
    pub fn get_limit(&self) -> (r: u32)
        requires
            self.limit + (match self.skip {
                Some(s) => s as int,
                None => 0int,
            }) <= u32::MAX,
        ensures
            r == self.limit + (match self.skip {
                Some(s) => s as int,
                None => 0int,
            }),
    {
        self.limit + (match self.skip {
            Some(s) => s,
            None => 0,
        })
    }
}

/// A difficulty tag update for one course.
pub struct PostCourse2Meta {
    pub difficulty: Option<Difficulty>,
}

/// Why a difficulty tag update was rejected.
#[derive(Debug)]
pub enum PostCourse2MetaError {
    /// The caller does not own the course.
    Unauthorized,
    /// No stored course has the requested id.
    CourseNotFound(u64),
}

/// The query of a batch upload.
pub struct PutCourses2 {
    pub difficulty: Option<Difficulty>,
}

/// A vote cast on one course: `1`, `-1`, or `0` to withdraw.
pub struct VoteCourse2 {
    pub value: i32,
}

/// The storage collections the platform keeps.
#[derive(Clone, Copy, Debug, PartialEq, Eq, Structural)]
pub enum Collections {
    Courses,
    CourseData,
    Courses2,
    Course2Data,
    Accounts,
    Votes,
    Meta,
}

impl Collections {
    /// The collection's name on the storage side.
    pub fn as_str(&self) -> (r: &str)
        ensures
            r@ == (match *self {
                Collections::Courses => "courses"@,
                Collections::CourseData => "courseData"@,
                Collections::Courses2 => "courses2"@,
                Collections::Course2Data => "course2Data"@,
                Collections::Accounts => "accounts"@,
                Collections::Votes => "votes"@,
                Collections::Meta => "meta"@,
            }),
    {
        match *self {
            Collections::Courses => "courses",
            Collections::CourseData => "courseData",
            Collections::Courses2 => "courses2",
            Collections::Course2Data => "course2Data",
            Collections::Accounts => "accounts",
            Collections::Votes => "votes",
            Collections::Meta => "meta",
        }
    }
}

} // verus!
