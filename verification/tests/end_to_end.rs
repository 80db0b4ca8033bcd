//! Whole solves, with plain floating-point numerics written out here, driven
//! by the library's engine, encodings and layouts.

use fracgm::decoupled::{assemble_transform, DecoupledRegistrationSolver, TIMPolicy};
use fracgm::error::SolveError;
use fracgm::matrix::Matrix;
use fracgm::mcis::{is_clique, max_clique_inlier_selection};
use fracgm::registration::{
    rotation_block, se3_mat_to_vec, se3_vec_to_mat, LinearRegistrationSolver,
};
use fracgm::rotation::{rot_mat_to_vec, rot_vec_to_mat};
use fracgm::shape::Shape;
use fracgm::solver::{
    gram_matrix, iteration_component, normalize_by_pivot, solve_beta_mu, unit_rhs, Action,
    Diagnostic, DiagnosticEngine, Engine, IterationComponent, Phase,
};
use fracgm::translation::{trans_mat_to_vec, trans_vec_to_mat};

type Mat = Matrix<f64>;

// ---------------------------------------------------------------- numerics

fn mat(rows: usize, cols: usize, cells: Vec<f64>) -> Mat {
    Matrix::from_vec(rows, cols, cells).unwrap()
}

fn shape(m: &Mat) -> Shape {
    Shape { rows: m.nrows(), cols: m.ncols() }
}

fn matmul(a: &Mat, b: &Mat) -> Mat {
    assert_eq!(a.ncols(), b.nrows());
    let mut cells = vec![0.0; a.nrows() * b.ncols()];
    for i in 0..a.nrows() {
        for j in 0..b.ncols() {
            let mut sum = 0.0;
            for k in 0..a.ncols() {
                sum += a.get(i, k) * b.get(k, j);
            }
            cells[i * b.ncols() + j] = sum;
        }
    }
    mat(a.nrows(), b.ncols(), cells)
}

fn transpose(a: &Mat) -> Mat {
    let mut cells = Vec::with_capacity(a.nrows() * a.ncols());
    for j in 0..a.ncols() {
        for i in 0..a.nrows() {
            cells.push(a.get(i, j));
        }
    }
    mat(a.ncols(), a.nrows(), cells)
}

fn det3(m: &Mat) -> f64 {
    m.get(0, 0) * (m.get(1, 1) * m.get(2, 2) - m.get(1, 2) * m.get(2, 1))
        - m.get(0, 1) * (m.get(1, 0) * m.get(2, 2) - m.get(1, 2) * m.get(2, 0))
        + m.get(0, 2) * (m.get(1, 0) * m.get(2, 1) - m.get(1, 1) * m.get(2, 0))
}

fn inverse_transpose3(m: &Mat) -> Mat {
    let d = det3(m);
    let c = |r: usize, s: usize| -> f64 {
        let (r1, r2) = ((r + 1) % 3, (r + 2) % 3);
        let (c1, c2) = ((s + 1) % 3, (s + 2) % 3);
        (m.get(r1, c1) * m.get(r2, c2) - m.get(r1, c2) * m.get(r2, c1)) / d
    };
    let mut cells = Vec::with_capacity(9);
    for r in 0..3 {
        for s in 0..3 {
            cells.push(c(r, s));
        }
    }
    mat(3, 3, cells)
}

/// The nearest rotation of a 3 by 3 matrix with positive determinant, by
/// Newton's iteration for the orthogonal polar factor.
fn project(m: &Mat) -> Mat {
    assert_eq!((m.nrows(), m.ncols()), (3, 3));
    assert!(det3(m) > 0.0, "the projection used here needs a positive determinant");
    let mut x = mat(3, 3, m.to_vec());
    for _ in 0..200 {
        let y = inverse_transpose3(&x);
        let next: Vec<f64> =
            x.to_vec().iter().zip(y.to_vec().iter()).map(|(a, b)| 0.5 * (a + b)).collect();
        let change: f64 =
            next.iter().zip(x.to_vec().iter()).map(|(a, b)| (a - b).abs()).fold(0.0, f64::max);
        x = mat(3, 3, next);
        if change < 1e-15 {
            break;
        }
    }
    x
}

/// Gaussian elimination with partial pivoting. `None` when a pivot is zero.
///
/// On data without noise the system matrix is singular by construction: the
/// solution spans its null space, and rounding decides whether the last
/// pivot comes out as zero or as a few units in the last place. A last
/// pivot of exactly zero is therefore taken as one unit of rounding, which
/// gives the same direction; a zero pivot anywhere else is a failure.
fn lu_solve(a: &Mat, b: &[f64]) -> Option<Vec<f64>> {
    let n = a.nrows();
    assert_eq!(a.ncols(), n);
    assert_eq!(b.len(), n);
    let scale = a.as_slice().iter().fold(0.0_f64, |m, v| m.max(v.abs()));
    let mut m: Vec<Vec<f64>> = (0..n)
        .map(|i| {
            let mut row: Vec<f64> = (0..n).map(|j| a.get(i, j)).collect();
            row.push(b[i]);
            row
        })
        .collect();
    for col in 0..n {
        let mut best = col;
        for r in col + 1..n {
            if m[r][col].abs() > m[best][col].abs() {
                best = r;
            }
        }
        if !m[best][col].is_finite() {
            return None;
        }
        if m[best][col] == 0.0 {
            if col + 1 < n || scale == 0.0 {
                return None;
            }
            m[best][col] = f64::EPSILON * scale;
        }
        m.swap(col, best);
        for r in col + 1..n {
            let factor = m[r][col] / m[col][col];
            for k in col..=n {
                m[r][k] -= factor * m[col][k];
            }
        }
    }
    let mut y = vec![0.0; n];
    for i in (0..n).rev() {
        let mut sum = m[i][n];
        for k in i + 1..n {
            sum -= m[i][k] * y[k];
        }
        y[i] = sum / m[i][i];
    }
    Some(y)
}

fn mean(pc: &Mat) -> [f64; 3] {
    let mut sum = [0.0; 3];
    for i in 0..pc.nrows() {
        for c in 0..3 {
            sum[c] += pc.get(i, c);
        }
    }
    let n = pc.nrows() as f64;
    [sum[0] / n, sum[1] / n, sum[2] / n]
}

fn centered(pc: &Mat) -> Mat {
    let m = mean(pc);
    let mut cells = Vec::with_capacity(pc.nrows() * 3);
    for i in 0..pc.nrows() {
        for c in 0..3 {
            cells.push(pc.get(i, c) - m[c]);
        }
    }
    mat(pc.nrows(), 3, cells)
}

/// `x' A x` over the upper triangle and the diagonal of a symmetric matrix.
fn quadratic_form(a: &Mat, x: &Mat) -> f64 {
    let mut upper = 0.0;
    let mut diag = 0.0;
    for i in 0..a.nrows() {
        for j in i..a.ncols() {
            if i == j {
                diag += x.get(i, 0) * a.get(i, j) * x.get(i, 0);
            } else {
                upper += x.get(i, 0) * a.get(i, j) * x.get(j, 0);
            }
        }
    }
    upper * 2.0 + diag
}

struct Term {
    mat: Mat,
    c: f64,
    cache: f64,
}

impl Term {
    fn f(&self) -> f64 {
        self.c * self.c * self.cache
    }

    fn h(&self) -> f64 {
        self.cache + self.c * self.c
    }
}

fn terms_of(measurements: &[Mat], noise_bound: f64, c: f64) -> Vec<Term> {
    measurements
        .iter()
        .map(|n| {
            let cell = |a0: f64, a1: f64, a2: f64, b0: f64, b1: f64, b2: f64| {
                (a0 * b0 + a1 * b1 + a2 * b2) / (noise_bound * noise_bound)
            };
            Term { mat: gram_matrix(n, cell), c, cache: 0.0 }
        })
        .collect()
}

fn update_terms_cache(terms: &mut Vec<Term>, x: &Mat) {
    for term in terms.iter_mut() {
        term.cache = quadratic_form(&term.mat, x);
    }
}

fn beta_mu(terms: &Vec<Term>) -> (Vec<f64>, Vec<f64>) {
    solve_beta_mu(terms, |t: &Term| t.f() / t.h(), |t: &Term| 1.0 / t.h())
}

fn psi_norm(beta: &[f64], mu: &[f64], terms: &[Term]) -> f64 {
    let mut sum = 0.0;
    for i in 0..terms.len() {
        let a = -terms[i].f() + beta[i] * terms[i].h();
        let b = -1.0 + mu[i] * terms[i].h();
        sum += a * a + b * b;
    }
    sum.sqrt()
}

fn assemble(dim: usize, terms: &[Term], beta: &[f64], mu: &[f64]) -> Mat {
    let mut cells = vec![0.0; dim * dim];
    for i in 0..terms.len() {
        let c2 = terms[i].c * terms[i].c;
        for (k, cell) in terms[i].mat.as_slice().iter().enumerate() {
            cells[k] += mu[i] * (c2 * cell) - mu[i] * beta[i] * cell;
        }
    }
    mat(dim, dim, cells)
}

fn solve_x(system: &Mat) -> Result<Mat, SolveError> {
    let e = unit_rhs(system.nrows(), 0.0, 1.0);
    let y = lu_solve(system, &e).ok_or(SolveError::DegenerateSystem)?;
    normalize_by_pivot(&y, |p: f64| p == 0.0 || !p.is_finite(), |p: f64, v: f64| (1.0 / p) * v)
}

// ---------------------------------------------------------------- problems

#[derive(Clone, Copy)]
enum Problem {
    Rotation,
    Translation,
    Registration,
}

impl Problem {
    fn dim(self) -> usize {
        match self {
            Problem::Rotation => fracgm::rotation::DIM,
            Problem::Translation => fracgm::translation::DIM,
            Problem::Registration => fracgm::registration::DIM,
        }
    }

    fn mat_to_vec(self, m: &Mat) -> Mat {
        match self {
            Problem::Rotation => rot_mat_to_vec(m, 1.0),
            Problem::Translation => trans_mat_to_vec(m, 1.0),
            Problem::Registration => se3_mat_to_vec(m, 1.0),
        }
    }

    fn vec_to_mat(self, v: &Mat) -> Mat {
        match self {
            Problem::Rotation => rot_vec_to_mat(v),
            Problem::Translation => trans_vec_to_mat(v),
            Problem::Registration => se3_vec_to_mat(v, 0.0, 1.0),
        }
    }

    fn project(self, m: &Mat) -> Mat {
        match self {
            Problem::Rotation => project(m),
            Problem::Translation => mat(m.nrows(), m.ncols(), m.to_vec()),
            Problem::Registration => LinearRegistrationSolver::new(1, 1.0, 1.0, 1.0)
                .project(m, |block: Mat| project(&block)),
        }
    }

    fn terms(self, pc1: &Mat, pc2: &Mat, noise_bound: f64, c: f64) -> Vec<Term> {
        match self {
            Problem::Rotation => terms_of(
                &fracgm::rotation::compute_measurement_matrices(pc1, pc2, 0.0, |x: f64| -1.0 * x),
                noise_bound,
                c,
            ),
            Problem::Registration => terms_of(
                &fracgm::registration::compute_measurement_matrices(
                    pc1,
                    pc2,
                    0.0,
                    1.0,
                    |x: f64| -1.0 * x,
                ),
                noise_bound,
                c,
            ),
            Problem::Translation => fracgm::translation::compute_term_matrices(
                pc1,
                pc2,
                0.0,
                1.0,
                |a: f64, b: f64| a - b,
                |x: f64, y: f64, z: f64| x * x + y * y + z * z,
            )
            .into_iter()
            .map(|m| Term { mat: m, c, cache: 0.0 })
            .collect(),
        }
    }

    fn initial_guess(self, pc1: &Mat, pc2: &Mat) -> Mat {
        let rotation = || project(&matmul(&transpose(&centered(pc2)), &centered(pc1)));
        let translation = || {
            let (m1, m2) = (mean(pc1), mean(pc2));
            mat(3, 1, vec![m2[0] - m1[0], m2[1] - m1[1], m2[2] - m1[2]])
        };
        match self {
            Problem::Rotation => rotation(),
            Problem::Translation => translation(),
            Problem::Registration => assemble_transform(&rotation(), &translation(), 0.0, 1.0),
        }
    }
}

struct Settings {
    max_iteration: usize,
    tol: f64,
    noise_bound: f64,
    c: f64,
}

const SETTINGS: Settings = Settings { max_iteration: 100, tol: 1e-6, noise_bound: 0.1, c: 1.0 };

struct Outcome {
    solution: Mat,
    n_iters: usize,
    phase: Phase,
}

fn solve(problem: Problem, pc1: &Mat, pc2: &Mat, s: &Settings) -> Result<Outcome, SolveError> {
    let mut engine = Engine::new(s.max_iteration, shape(pc1), shape(pc2))?;
    let mut terms = problem.terms(pc1, pc2, s.noise_bound, s.c);
    assert_eq!(terms.len(), engine.n_terms());
    let mut x = problem.mat_to_vec(&problem.initial_guess(pc1, pc2));
    update_terms_cache(&mut terms, &x);
    let (mut beta, mut mu) = beta_mu(&terms);
    let mut action = engine.start();
    while action == Action::Iterate {
        let system = assemble(problem.dim(), &terms, &beta, &mu);
        x = solve_x(&system)?;
        update_terms_cache(&mut terms, &x);
        let psi = psi_norm(&beta, &mu, &terms);
        action = engine.step(psi < s.tol);
        if action == Action::Iterate {
            let next = beta_mu(&terms);
            beta = next.0;
            mu = next.1;
        }
    }
    Ok(Outcome {
        solution: problem.project(&problem.vec_to_mat(&x)),
        n_iters: engine.n_iters(),
        phase: engine.phase(),
    })
}

fn solve_with_diagnostic(
    problem: Problem,
    pc1: &Mat,
    pc2: &Mat,
    s: &Settings,
) -> Result<Diagnostic<Mat, f64>, SolveError> {
    let decode = |x: &Mat| problem.vec_to_mat(x);
    let projection = |m: &Mat| -> Result<Mat, SolveError> { Ok(problem.project(m)) };
    let entry = |x: &Mat, beta: &Vec<f64>, mu: &Vec<f64>, terms: &Vec<Term>| {
        let made: Result<IterationComponent<Mat, f64>, SolveError> = iteration_component(
            mat(x.nrows(), x.ncols(), x.to_vec()),
            beta.clone(),
            mu.clone(),
            psi_norm(beta, mu, terms),
            decode,
            projection,
        );
        made.unwrap()
    };
    let mut engine: DiagnosticEngine<Mat, f64> =
        DiagnosticEngine::new(s.max_iteration, shape(pc1), shape(pc2))?;
    let mut terms = problem.terms(pc1, pc2, s.noise_bound, s.c);
    let mut x = problem.mat_to_vec(&problem.initial_guess(pc1, pc2));
    update_terms_cache(&mut terms, &x);
    let (mut beta, mut mu) = beta_mu(&terms);
    let mut action = engine.start(entry(&x, &beta, &mu, &terms));
    while action == Action::Iterate {
        let system = assemble(problem.dim(), &terms, &beta, &mu);
        x = solve_x(&system)?;
        update_terms_cache(&mut terms, &x);
        let record = entry(&x, &beta, &mu, &terms);
        let converged = record.psi_norm < s.tol;
        action = engine.step(record, converged);
        if action == Action::Iterate {
            let next = beta_mu(&terms);
            beta = next.0;
            mu = next.1;
        }
    }
    Ok(engine.close(decode, projection)?.unwrap())
}

fn solve_decoupled(policy: TIMPolicy, pc1: &Mat, pc2: &Mat, s: &Settings) -> Result<Mat, SolveError> {
    let mut solver =
        DecoupledRegistrationSolver::new(s.max_iteration, s.tol, s.noise_bound, s.c, |b: f64| b * 2.0);
    solver.set_tim_policy(policy);
    let (rotation_engine, translation_engine) = solver.start_solve(shape(pc1), shape(pc2))?;
    let subtract = |a: f64, b: f64| a - b;
    let tims1 = solver.compute_measurements(pc1, subtract);
    let tims2 = solver.compute_measurements(pc2, subtract);
    assert_eq!(tims1.nrows(), rotation_engine.n_terms());
    assert_eq!(pc1.nrows(), translation_engine.n_terms());
    let rotation_settings = Settings {
        max_iteration: solver.rotation_solver.max_iteration,
        tol: solver.rotation_solver.tol,
        noise_bound: solver.rotation_solver.noise_bound,
        c: solver.rotation_solver.c,
    };
    let rot = solve(Problem::Rotation, &tims1, &tims2, &rotation_settings)?.solution;
    let rotated = transpose(&matmul(&rot, &transpose(pc1)));
    let trans = solve(Problem::Translation, &rotated, pc2, s)?.solution;
    Ok(assemble_transform(&rot, &trans, 0.0, 1.0))
}

// -------------------------------------------------------------------- data

struct Random(u64);

impl Random {
    fn next(&mut self) -> f64 {
        self.0 = self.0.wrapping_mul(6364136223846793005).wrapping_add(1442695040888963407);
        ((self.0 >> 11) as f64) / ((1u64 << 53) as f64) * 2.0 - 1.0
    }
}

/// `n` points on the unit sphere.
fn sphere(n: usize, seed: u64) -> Mat {
    let mut random = Random(seed);
    let mut cells = Vec::with_capacity(3 * n);
    while cells.len() < 3 * n {
        let p = [random.next(), random.next(), random.next()];
        let norm = (p[0] * p[0] + p[1] * p[1] + p[2] * p[2]).sqrt();
        if norm > 0.1 && norm <= 1.0 {
            cells.extend(p.iter().map(|v| v / norm));
        }
    }
    mat(n, 3, cells)
}

fn rz(degrees: f64) -> Mat {
    let (s, c) = degrees.to_radians().sin_cos();
    mat(3, 3, vec![c, -s, 0.0, s, c, 0.0, 0.0, 0.0, 1.0])
}

fn rx(degrees: f64) -> Mat {
    let (s, c) = degrees.to_radians().sin_cos();
    mat(3, 3, vec![1.0, 0.0, 0.0, 0.0, c, -s, 0.0, s, c])
}

/// `rot * p + t` for every point `p` of the cloud.
fn moved(pc: &Mat, rot: &Mat, t: [f64; 3]) -> Mat {
    let rotated = transpose(&matmul(rot, &transpose(pc)));
    let mut cells = Vec::with_capacity(pc.nrows() * 3);
    for i in 0..pc.nrows() {
        for c in 0..3 {
            cells.push(rotated.get(i, c) + t[c]);
        }
    }
    mat(pc.nrows(), 3, cells)
}

fn select(pc: &Mat, rows: &[usize]) -> Mat {
    let mut cells = Vec::with_capacity(rows.len() * 3);
    for &i in rows {
        for c in 0..3 {
            cells.push(pc.get(i, c));
        }
    }
    mat(rows.len(), 3, cells)
}

fn distance(a: &Mat, b: &Mat) -> f64 {
    assert_eq!((a.nrows(), a.ncols()), (b.nrows(), b.ncols()));
    a.to_vec().iter().zip(b.to_vec().iter()).map(|(x, y)| (x - y) * (x - y)).sum::<f64>().sqrt()
}

fn assert_is_rotation(rot: &Mat) {
    let gram = matmul(&transpose(rot), rot);
    let eye = mat(3, 3, vec![1.0, 0.0, 0.0, 0.0, 1.0, 0.0, 0.0, 0.0, 1.0]);
    assert!(distance(&gram, &eye) < 1e-8);
    assert!((det3(rot) - 1.0).abs() < 1e-8);
}

// ------------------------------------------------------------------- tests

#[test]
fn pure_rotation_is_recovered() {
    let src = sphere(100, 1);
    let truth = rz(45.0);
    let dst = moved(&src, &truth, [0.0; 3]);
    let outcome = solve(Problem::Rotation, &src, &dst, &SETTINGS).unwrap();
    assert!(distance(&outcome.solution, &truth) < 1e-5);
    assert_is_rotation(&outcome.solution);
    assert_eq!(outcome.phase, Phase::Converged);
    assert!(outcome.n_iters >= 1 && outcome.n_iters <= SETTINGS.max_iteration);
}

#[test]
fn rigid_motion_is_recovered() {
    let src = sphere(100, 2);
    let truth = matmul(&rz(45.0), &rx(20.0));
    let dst = moved(&src, &truth, [0.3, 0.2, 0.6]);
    let outcome = solve(Problem::Registration, &src, &dst, &SETTINGS).unwrap();
    let t = &outcome.solution;
    assert_eq!((t.nrows(), t.ncols()), (4, 4));
    assert!(distance(&rotation_block(t), &truth) < 1e-5);
    assert_is_rotation(&rotation_block(t));
    assert!((t.get(0, 3) - 0.3).abs() < 1e-5);
    assert!((t.get(1, 3) - 0.2).abs() < 1e-5);
    assert!((t.get(2, 3) - 0.6).abs() < 1e-5);
    assert_eq!([t.get(3, 0), t.get(3, 1), t.get(3, 2), t.get(3, 3)], [0.0, 0.0, 0.0, 1.0]);
}

#[test]
fn translation_is_recovered() {
    let src = sphere(60, 3);
    let eye = rz(0.0);
    let dst = moved(&src, &eye, [0.3, 0.2, 0.6]);
    let outcome = solve(Problem::Translation, &src, &dst, &SETTINGS).unwrap();
    let t = &outcome.solution;
    assert_eq!((t.nrows(), t.ncols()), (3, 1));
    assert!(distance(t, &mat(3, 1, vec![0.3, 0.2, 0.6])) < 1e-6);
}

#[test]
fn chain_and_complete_policies_agree_on_clean_data() {
    let src = sphere(50, 4);
    let truth = matmul(&rx(-30.0), &rz(70.0));
    let dst = moved(&src, &truth, [-0.4, 0.1, 0.25]);
    let chain = solve_decoupled(TIMPolicy::CHAIN, &src, &dst, &SETTINGS).unwrap();
    let complete = solve_decoupled(TIMPolicy::COMPLETE, &src, &dst, &SETTINGS).unwrap();
    assert!(distance(&chain, &complete) < 1e-6);
    assert!(distance(&rotation_block(&chain), &truth) < 1e-6);
    assert!((chain.get(0, 3) + 0.4).abs() < 1e-6);
    assert!((chain.get(1, 3) - 0.1).abs() < 1e-6);
    assert!((chain.get(2, 3) - 0.25).abs() < 1e-6);
    assert_eq!(chain.get(3, 3), 1.0);
}

#[test]
fn solve_refuses_clouds_of_different_length() {
    let src = sphere(10, 5);
    let dst = sphere(9, 5);
    for problem in [Problem::Rotation, Problem::Translation, Problem::Registration] {
        assert!(matches!(solve(problem, &src, &dst, &SETTINGS), Err(SolveError::ShapeMismatch)));
    }
    assert!(matches!(
        solve_decoupled(TIMPolicy::CHAIN, &src, &dst, &SETTINGS),
        Err(SolveError::ShapeMismatch)
    ));
}

#[test]
fn solve_refuses_clouds_that_are_not_three_wide() {
    let flat = mat(10, 2, vec![0.5; 20]);
    for problem in [Problem::Rotation, Problem::Translation, Problem::Registration] {
        assert!(matches!(solve(problem, &flat, &flat, &SETTINGS), Err(SolveError::ShapeMismatch)));
    }
    let src = sphere(10, 6);
    assert!(matches!(
        solve(Problem::Rotation, &src, &flat, &SETTINGS),
        Err(SolveError::ShapeMismatch)
    ));
}

#[test]
fn zero_weighted_terms_are_a_degenerate_system() {
    let src = sphere(20, 7);
    let dst = moved(&src, &rz(10.0), [0.0; 3]);
    for problem in [Problem::Rotation, Problem::Translation, Problem::Registration] {
        let terms = problem.terms(&src, &dst, 0.1, 1.0);
        let zeros = vec![0.0; terms.len()];
        let system = assemble(problem.dim(), &terms, &zeros, &zeros);
        assert!(matches!(solve_x(&system), Err(SolveError::DegenerateSystem)));
    }
}

#[test]
fn diagnostic_of_a_clean_solve_is_consistent() {
    let src = sphere(100, 8);
    let truth = rz(45.0);
    let dst = moved(&src, &truth, [0.0; 3]);
    let diagnostic = solve_with_diagnostic(Problem::Rotation, &src, &dst, &SETTINGS).unwrap();
    assert!(diagnostic.n_iters >= 1);
    assert!(diagnostic.n_iters <= SETTINGS.max_iteration);
    assert_eq!(diagnostic.iterations.len(), diagnostic.n_iters + 1);
    for it in diagnostic.iterations.iter() {
        assert_eq!(it.beta.len(), 100);
        assert_eq!(it.mu.len(), 100);
        assert!(it.psi_norm >= 0.0);
        assert_eq!(it.alpha_vec.nrows(), 10);
        assert!(distance(&it.alpha_proj, &project(&it.alpha_mat)) < 1e-12);
        assert_eq!(it.alpha_mat.to_vec(), rot_vec_to_mat(&it.alpha_vec).to_vec());
    }
    let last = diagnostic.iterations.last().unwrap();
    assert!(last.psi_norm < SETTINGS.tol);
    assert_eq!(diagnostic.solution.to_vec(), last.alpha_proj.to_vec());
    assert!(distance(&diagnostic.solution, &truth) < 1e-5);
}

#[test]
fn a_cap_of_one_iteration_is_not_an_error() {
    let src = sphere(30, 9);
    let mut random = Random(99);
    let clean = moved(&src, &rz(45.0), [0.0; 3]);
    let noisy: Vec<f64> = clean.to_vec().iter().map(|v| v + 0.05 * random.next()).collect();
    let dst = mat(30, 3, noisy);
    let capped = Settings { max_iteration: 1, tol: 1e-12, noise_bound: 0.1, c: 1.0 };
    let diagnostic = solve_with_diagnostic(Problem::Rotation, &src, &dst, &capped).unwrap();
    assert_eq!(diagnostic.n_iters, 1);
    assert_eq!(diagnostic.iterations.len(), 2);
    assert_is_rotation(&diagnostic.solution);
    let outcome = solve(Problem::Rotation, &src, &dst, &capped).unwrap();
    assert_eq!(outcome.phase, Phase::Exhausted);
    assert_eq!(outcome.n_iters, 1);
}

#[test]
fn scaling_noise_bound_and_points_together_changes_nothing() {
    let src = sphere(40, 10);
    let mut random = Random(7);
    let clean = moved(&src, &rz(33.0), [0.0; 3]);
    let noisy: Vec<f64> = clean.to_vec().iter().map(|v| v + 0.01 * random.next()).collect();
    let dst = mat(40, 3, noisy);
    let base = solve(Problem::Rotation, &src, &dst, &SETTINGS).unwrap();
    // Powers of two scale floating-point numbers without rounding.
    let k = 4.0;
    let scale = |pc: &Mat| mat(pc.nrows(), 3, pc.to_vec().iter().map(|v| v * k).collect());
    let scaled_settings = Settings { noise_bound: SETTINGS.noise_bound * k, ..SETTINGS };
    let scaled = solve(Problem::Rotation, &scale(&src), &scale(&dst), &scaled_settings).unwrap();
    assert!(distance(&base.solution, &scaled.solution) < 1e-9);
    assert_eq!(base.n_iters, scaled.n_iters);
}

#[test]
fn inlier_selection_makes_the_solve_robust() {
    let n = 40;
    let noise_bound = 0.1;
    let src = sphere(n, 11);
    let truth = rz(45.0);
    let clean = moved(&src, &truth, [0.0; 3]);
    // Every third-but-one correspondence is moved by ten times the noise bound.
    let mut random = Random(5);
    let mut cells = clean.to_vec();
    let mut outliers = Vec::new();
    for i in 0..n {
        if i % 10 < 3 {
            outliers.push(i);
            let d = [random.next(), random.next(), random.next()];
            let norm = (d[0] * d[0] + d[1] * d[1] + d[2] * d[2]).sqrt();
            for c in 0..3 {
                cells[3 * i + c] += 10.0 * noise_bound * d[c] / norm;
            }
        }
    }
    let dst = mat(n, 3, cells);

    let length = |pc: &Mat, a: usize, b: usize| -> f64 {
        (0..3).map(|c| (pc.get(a, c) - pc.get(b, c)).powi(2)).sum::<f64>().sqrt()
    };
    let compatible =
        |a: usize, b: usize| (length(&src, a, b) - length(&dst, a, b)).abs() <= 2.0 * noise_bound;

    // A small stand-in for the max-clique engine: grow a clique greedily from
    // every vertex and keep the largest.
    let engine = |_threads: i32| -> Vec<i32> {
        let mut best: Vec<usize> = Vec::new();
        for start in 0..n {
            let mut clique = vec![start];
            for v in 0..n {
                if v != start && clique.iter().all(|&u| compatible(u, v)) {
                    clique.push(v);
                }
            }
            if clique.len() > best.len() {
                best = clique;
            }
        }
        best.iter().rev().map(|&v| v as i32).collect()
    };

    let inliers = max_clique_inlier_selection(n, engine);
    assert!(inliers.windows(2).all(|w| w[0] < w[1]));
    assert!(inliers.iter().all(|&v| v < n));
    assert!(is_clique(&inliers, compatible));
    assert!(inliers.len() >= n - outliers.len());

    let selected =
        solve(Problem::Rotation, &select(&src, &inliers), &select(&dst, &inliers), &SETTINGS)
            .unwrap();
    assert!(distance(&selected.solution, &truth) < 1e-3);
}

#[test]
fn term_matrices_of_every_problem_equal_their_transposes() {
    let src = sphere(12, 12);
    let dst = moved(&src, &rx(15.0), [0.1, -0.2, 0.3]);
    for problem in [Problem::Rotation, Problem::Translation, Problem::Registration] {
        let terms = problem.terms(&src, &dst, 0.1, 1.0);
        assert_eq!(terms.len(), 12);
        for term in terms.iter() {
            assert_eq!((term.mat.nrows(), term.mat.ncols()), (problem.dim(), problem.dim()));
            assert_eq!(term.mat.to_vec(), transpose(&term.mat).to_vec());
        }
    }
}

#[test]
fn term_matrix_is_the_scaled_product_of_the_measurement_matrix_with_itself() {
    let src = sphere(3, 13);
    let dst = moved(&src, &rz(5.0), [0.0; 3]);
    let measurements =
        fracgm::rotation::compute_measurement_matrices(&src, &dst, 0.0, |x: f64| -1.0 * x);
    let terms = terms_of(&measurements, 0.5, 1.0);
    for (n, term) in measurements.iter().zip(terms.iter()) {
        let product = matmul(&transpose(n), n);
        for i in 0..10 {
            for j in 0..10 {
                assert!((term.mat.get(i, j) - product.get(i, j) / 0.25).abs() < 1e-12);
            }
        }
    }
}

#[test]
fn cached_value_gives_numerator_and_denominator() {
    let src = sphere(5, 14);
    let dst = moved(&src, &rz(25.0), [0.0; 3]);
    let c = 1.5;
    let mut terms = Problem::Rotation.terms(&src, &dst, 0.1, c);
    let x = rot_mat_to_vec(&rz(10.0), 1.0);
    update_terms_cache(&mut terms, &x);
    for term in terms.iter() {
        // The full double sum, against the sum over the upper triangle.
        let mut full = 0.0;
        for i in 0..10 {
            for j in 0..10 {
                full += x.get(i, 0) * term.mat.get(i, j) * x.get(j, 0);
            }
        }
        assert!((term.cache - full).abs() <= 1e-9 * full.abs().max(1.0));
        assert!((term.f() - c * c * full).abs() <= 1e-9 * full.abs().max(1.0));
        assert!((term.h() - (full + c * c)).abs() <= 1e-9 * full.abs().max(1.0));
    }
}
