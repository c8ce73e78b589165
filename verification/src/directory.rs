//! Who works in which department, kept from instructions in plain words.

use crate::spaces::{split_words, words};
use crate::words::owned_texts;
use vstd::prelude::*;
use vstd::string::StringExecFns;

verus! {

/// What a contract sees of a department: its name and its employees in the
/// order they were added.
pub struct DepartmentView {
    pub name: Seq<char>,
    pub employees: Seq<Seq<char>>,
}

struct Department {
    name: String,
    employees: Vec<String>,
}

impl Department {
    spec fn view(&self) -> DepartmentView {
        DepartmentView { name: self.name@, employees: owned_texts(self.employees@) }
    }
}

/// The departments of a firm and their employees.
pub struct Directory {
    departments: Vec<Department>,
}

/// The place of the department `name` in `departments`, or their number if
/// there is none of that name.
pub open spec fn place_of(departments: Seq<DepartmentView>, name: Seq<char>) -> int
    decreases departments.len(),
{
    if departments.len() == 0 {
        0
    } else if departments[0].name == name {
        0
    } else {
        1 + place_of(departments.subrange(1, departments.len() as int), name)
    }
}

/// `place_of` is in range, names no department before it, and names the
/// one at it unless it is the end.
pub proof fn lemma_place_of(departments: Seq<DepartmentView>, name: Seq<char>)
    ensures
        0 <= place_of(departments, name) <= departments.len(),
        forall|j: int| 0 <= j < place_of(departments, name) ==> departments[j].name != name,
        place_of(departments, name) < departments.len() ==> departments[place_of(
            departments,
            name,
        )].name == name,
    decreases departments.len(),
{
    if departments.len() > 0 && departments[0].name != name {
        let rest = departments.subrange(1, departments.len() as int);
        lemma_place_of(rest, name);
        assert forall|j: int| 0 <= j < place_of(departments, name) implies departments[j].name
            != name by {
            if j > 0 {
                assert(rest[j - 1] == departments[j]);
            }
        }
        if place_of(rest, name) < rest.len() {
            assert(rest[place_of(rest, name)] == departments[place_of(rest, name) + 1]);
        }
    }
}

/// The employees of all `departments`, department by department.
pub open spec fn all_people(departments: Seq<DepartmentView>) -> Seq<Seq<char>>
    decreases departments.len(),
{
    if departments.len() == 0 {
        Seq::empty()
    } else {
        all_people(departments.drop_last()) + departments.last().employees
    }
}

/// `a` comes before `b` or is `b`, byte by byte: the order of a dictionary
/// over bytes.
pub open spec fn bytes_le(a: Seq<u8>, b: Seq<u8>) -> bool
    decreases a.len(),
{
    if a.len() == 0 {
        true
    } else if b.len() == 0 {
        false
    } else if a[0] == b[0] {
        bytes_le(a.skip(1), b.skip(1))
    } else {
        a[0] < b[0]
    }
}

/// `a` comes before `b` or is `b` in the order of strings, which goes by
/// the bytes of their encoding.
pub open spec fn text_le(a: Seq<char>, b: Seq<char>) -> bool {
    bytes_le(vstd::utf8::encode_utf8(a), vstd::utf8::encode_utf8(b))
}

/// Of two runs of bytes one comes before the other or is the other.
pub proof fn lemma_bytes_le_total(a: Seq<u8>, b: Seq<u8>)
    ensures
        bytes_le(a, b) || bytes_le(b, a),
    decreases a.len(),
{
    if a.len() > 0 && b.len() > 0 && a[0] == b[0] {
        lemma_bytes_le_total(a.skip(1), b.skip(1));
    }
}

/// What comes before something that comes before a third comes before the
/// third.
pub proof fn lemma_bytes_le_transitive(a: Seq<u8>, b: Seq<u8>, c: Seq<u8>)
    requires
        bytes_le(a, b),
        bytes_le(b, c),
    ensures
        bytes_le(a, c),
    decreases a.len(),
{
    if a.len() > 0 && b.len() > 0 && c.len() > 0 && a[0] == b[0] && b[0] == c[0] {
        lemma_bytes_le_transitive(a.skip(1), b.skip(1), c.skip(1));
    }
}

/// Whether `a` comes before `b` or is `b`, byte by byte.
pub fn bytes_in_order(a: &[u8], b: &[u8]) -> (le: bool)
    ensures
        le == bytes_le(a@, b@),
{
    let mut i: usize = 0;
    proof {
        assert(a@.skip(0) =~= a@);
        assert(b@.skip(0) =~= b@);
    }
    while i < a.len() && i < b.len()
        invariant
            i <= a@.len(),
            i <= b@.len(),
            bytes_le(a@, b@) == bytes_le(a@.skip(i as int), b@.skip(i as int)),
        decreases a@.len() - i,
    {
        proof {
            assert(a@.skip(i as int)[0] == a@[i as int]);
            assert(b@.skip(i as int)[0] == b@[i as int]);
            assert(a@.skip(i as int).skip(1) =~= a@.skip(i + 1));
            assert(b@.skip(i as int).skip(1) =~= b@.skip(i + 1));
        }
        if a[i] != b[i] {
            return a[i] < b[i];
        }
        i += 1;
    }
    proof {
        assert(a@.skip(i as int).len() == a@.len() - i);
        assert(b@.skip(i as int).len() == b@.len() - i);
    }
    i == a.len()
}

/// Whether `a` comes before `b` or is `b` in the order of strings.
pub fn names_in_order(a: &String, b: &String) -> (le: bool)
    ensures
        le == text_le(a@, b@),
{
    bytes_in_order(a.as_str().as_bytes(), b.as_str().as_bytes())
}

/// The texts of `s` are in order.
pub open spec fn in_order(s: Seq<Seq<char>>) -> bool {
    forall|i: int, j: int| 0 <= i <= j < s.len() ==> text_le(s[i], s[j])
}

/// The first `n` texts of `s` are in order.
pub open spec fn in_order_to(s: Seq<Seq<char>>, n: int) -> bool {
    forall|i: int, j: int| 0 <= i <= j < n ==> text_le(s[i], s[j])
}

/// Sorts the names: afterwards they are the same names, each as often as
/// before, in the order of strings.
pub fn sort_names(names: &mut Vec<String>)
    ensures
        owned_texts(final(names)@).to_multiset() == owned_texts(old(names)@).to_multiset(),
        in_order(owned_texts(final(names)@)),
{
    let n = names.len();
    let mut i: usize = 1;
    proof {
        if n > 0 {
            let first = vstd::utf8::encode_utf8(names@[0]@);
            lemma_bytes_le_total(first, first);
        }
    }
    while i < n
        invariant
            names@.len() == n,
            1 <= i,
            owned_texts(names@).to_multiset() == owned_texts(old(names)@).to_multiset(),
            in_order_to(owned_texts(names@), if i <= n {
                i as int
            } else {
                n as int
            }),
        decreases n - i,
    {
        let ghost before = owned_texts(names@);
        let name = names.remove(i);
        let ghost x = name@;
        let ghost without = owned_texts(names@);
        proof {
            assert(without =~= before.remove(i as int));
        }
        let mut j: usize = i;
        while j > 0 && !names_in_order(&names[j - 1], &name)
            invariant
                j <= i < n,
                owned_texts(names@) == without,
                names@.len() == n - 1,
                name@ == x,
                forall|k: int| j <= k < i ==> !text_le(without[k], x),
            decreases j,
        {
            j -= 1;
        }
        names.insert(j, name);
        proof {
            broadcast use vstd::multiset::group_multiset_axioms;

            let after = owned_texts(names@);
            assert(after =~= without.insert(j as int, x));
            vstd::seq_lib::to_multiset_remove(before, i as int);
            vstd::seq_lib::to_multiset_insert(without, j as int, x);
            before.to_multiset_ensures();
            assert(before[i as int] == x);
            assert(before.contains(x));
            assert(before.to_multiset().count(x) > 0);
            assert(after.to_multiset() =~= before.to_multiset());
            assert forall|a: int, b: int| 0 <= a <= b < i + 1 implies text_le(
                after[a],
                after[b],
            ) by {
                let left = if a < j {
                    without[a]
                } else if a == j {
                    x
                } else {
                    without[a - 1]
                };
                let right = if b < j {
                    without[b]
                } else if b == j {
                    x
                } else {
                    without[b - 1]
                };
                assert(after[a] == left && after[b] == right);
                if a < j {
                    assert(without[a] == before[a]);
                    assert(without[j - 1] == before[j - 1]);
                    assert(text_le(before[a], before[j - 1]));
                }
                if b > j {
                    assert(without[b - 1] == before[b - 1]);
                }
                if a > j {
                    assert(without[a - 1] == before[a - 1]);
                }
                if a == b {
                    lemma_bytes_le_total(
                        vstd::utf8::encode_utf8(left),
                        vstd::utf8::encode_utf8(left),
                    );
                } else if a < j && b == j {
                    lemma_bytes_le_transitive(
                        vstd::utf8::encode_utf8(without[a]),
                        vstd::utf8::encode_utf8(without[j - 1]),
                        vstd::utf8::encode_utf8(x),
                    );
                } else if a == j {
                    lemma_bytes_le_total(
                        vstd::utf8::encode_utf8(without[b - 1]),
                        vstd::utf8::encode_utf8(x),
                    );
                } else if a < j && b > j {
                    assert(text_le(before[a], before[b - 1]));
                }
            }
        }
        i += 1;
    }
}

impl View for Directory {
    type V = Seq<DepartmentView>;

    closed spec fn view(&self) -> Seq<DepartmentView> {
        Seq::new(self.departments@.len(), |i: int| self.departments@[i].view())
    }
}

impl Directory {
    /// No two departments have the same name.
    pub open spec fn wf(&self) -> bool {
        forall|i: int, j: int| 0 <= i < j < self@.len() ==> self@[i].name != self@[j].name
    }

    /// A directory without departments.
    pub fn new() -> (d: Self)
        ensures
            d.wf(),
            d@ == Seq::<DepartmentView>::empty(),
    {
        let d = Directory { departments: Vec::new() };
        assert(d@ =~= Seq::<DepartmentView>::empty());
        d
    }

    /// The place of the department `name`, or the number of departments if
    /// there is none of that name.
    fn find(&self, name: &String) -> (i: usize)
        ensures
            i == place_of(self@, name@),
            i <= self@.len(),
    {
        let mut i: usize = 0;
        while i < self.departments.len()
            invariant
                i <= self.departments@.len(),
                forall|j: int| 0 <= j < i ==> self@[j].name != name@,
            decreases self.departments@.len() - i,
        {
            if self.departments[i].name == *name {
                proof {
                    lemma_place_of(self@, name@);
                    assert(self@[i as int].name == name@);
                    let at = place_of(self@, name@);
                    if at < i {
                        assert(self@[at].name != name@);
                    }
                }
                return i;
            }
            proof {
                assert(self@[i as int].name != name@);
            }
            i += 1;
        }
        proof {
            lemma_place_of(self@, name@);
            let at = place_of(self@, name@);
            if at < i {
                assert(self@[at].name != name@);
            }
        }
        i
    }

    /// Adds `employee` to `department`, after those that are there; a
    /// department that is new comes after those that are there.
    pub fn add_employee(&mut self, employee: &str, department: &str)
        requires
            old(self).wf(),
        ensures
            final(self).wf(),
            ({
                let at = place_of(old(self)@, department@);
                if at < old(self)@.len() {
                    final(self)@ == old(self)@.update(
                        at,
                        DepartmentView {
                            name: department@,
                            employees: old(self)@[at].employees.push(employee@),
                        },
                    )
                } else {
                    final(self)@ == old(self)@.push(
                        DepartmentView { name: department@, employees: seq![employee@] },
                    )
                }
            }),
    {
        let ghost before = self@;
        let name = String::from_str(department);
        let at = self.find(&name);
        proof {
            lemma_place_of(before, department@);
        }
        if at < self.departments.len() {
            let ghost staff = self.departments@[at as int].employees@;
            self.departments[at].employees.push(String::from_str(employee));
            proof {
                assert(owned_texts(self.departments@[at as int].employees@) =~= owned_texts(staff).push(
                    employee@,
                ));
                assert(self@ =~= before.update(
                    at as int,
                    DepartmentView {
                        name: department@,
                        employees: before[at as int].employees.push(employee@),
                    },
                ));
            }
        } else {
            let mut employees: Vec<String> = Vec::new();
            employees.push(String::from_str(employee));
            proof {
                assert(owned_texts(employees@) =~= seq![employee@]);
            }
            self.departments.push(Department { name, employees });
            proof {
                assert(self@ =~= before.push(
                    DepartmentView { name: department@, employees: seq![employee@] },
                ));
            }
        }
    }

    /// Carries out an instruction of four words, of which the second is the
    /// employee and the fourth the department, as in `Add Sally to
    /// Engineering`. Any other text is no instruction: it changes nothing,
    /// and the answer is `false`.
    pub fn add_employee_by_text_interface(&mut self, text: String) -> (done: bool)
        requires
            old(self).wf(),
        ensures
            final(self).wf(),
            done == (words(text@).len() == 4),
            !done ==> final(self)@ == old(self)@,
            done ==> ({
                let employee = words(text@)[1];
                let department = words(text@)[3];
                let at = place_of(old(self)@, department);
                if at < old(self)@.len() {
                    final(self)@ == old(self)@.update(
                        at,
                        DepartmentView {
                            name: department,
                            employees: old(self)@[at].employees.push(employee),
                        },
                    )
                } else {
                    final(self)@ == old(self)@.push(
                        DepartmentView { name: department, employees: seq![employee] },
                    )
                }
            }),
    {
        let instruction = split_words(text.as_str());
        if instruction.len() != 4 {
            return false;
        }
        let employee = instruction[1];
        let department = instruction[3];
        self.add_employee(employee, department);
        true
    }

    /// The employees of `department` in order, or `None` if there is no
    /// such department.
    pub fn get_department_employees(&self, department: String) -> (found: Option<Vec<String>>)
        ensures
            found is Some <==> place_of(self@, department@) < self@.len(),
            found matches Some(names) ==> {
                &&& in_order(owned_texts(names@))
                &&& owned_texts(names@).to_multiset() == self@[place_of(
                    self@,
                    department@,
                )].employees.to_multiset()
            },
    {
        let at = self.find(&department);
        if at < self.departments.len() {
            let mut names = copy_names(&self.departments[at].employees);
            sort_names(&mut names);
            Some(names)
        } else {
            None
        }
    }

    /// All employees in order, or `None` if there is none.
    pub fn get_all_people(&self) -> (found: Option<Vec<String>>)
        ensures
            found is Some <==> all_people(self@).len() > 0,
            found matches Some(names) ==> {
                &&& in_order(owned_texts(names@))
                &&& owned_texts(names@).to_multiset() == all_people(self@).to_multiset()
            },
    {
        let mut employees: Vec<String> = Vec::new();
        let mut i: usize = 0;
        proof {
            assert(self@.take(0) =~= Seq::<DepartmentView>::empty());
            assert(owned_texts(employees@) =~= all_people(self@.take(0)));
        }
        while i < self.departments.len()
            invariant
                i <= self.departments@.len(),
                owned_texts(employees@) == all_people(self@.take(i as int)),
            decreases self.departments@.len() - i,
        {
            let ghost so_far = owned_texts(employees@);
            let mut staff = copy_names(&self.departments[i].employees);
            employees.append(&mut staff);
            proof {
                assert(self@.take(i + 1).drop_last() =~= self@.take(i as int));
                assert(self@.take(i + 1).last() == self@[i as int]);
                assert(owned_texts(employees@) =~= so_far + self@[i as int].employees);
            }
            i += 1;
        }
        proof {
            assert(self@.take(self@.len() as int) =~= self@);
        }
        if employees.len() > 0 {
            sort_names(&mut employees);
            return Some(employees);
        }
        None
    }
}

/// A copy of each of `names`, in order.
pub fn copy_names(names: &Vec<String>) -> (copies: Vec<String>)
    ensures
        owned_texts(copies@) == owned_texts(names@),
{
    let mut copies: Vec<String> = Vec::new();
    let mut i: usize = 0;
    while i < names.len()
        invariant
            i <= names@.len(),
            copies@.len() == i,
            forall|j: int| 0 <= j < i ==> copies@[j]@ == names@[j]@,
        decreases names@.len() - i,
    {
        copies.push(names[i].clone());
        i += 1;
    }
    proof {
        assert(owned_texts(copies@) =~= owned_texts(names@));
    }
    copies
}

} // verus!
