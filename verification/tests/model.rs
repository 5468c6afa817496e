use transformer::matrix::Matrix;
use transformer::scalar::Scalar;
use transformer::tokenizer::Tokenizer;
use transformer::transformer::Transformer;

#[derive(Clone, Copy, Debug, PartialEq)]
struct Real(f64);

impl Scalar for Real {
    fn from_u64(n: u64) -> Self {
        Real(n as f64)
    }

    fn plus(self, rhs: Self) -> Self {
        Real(self.0 + rhs.0)
    }

    fn minus(self, rhs: Self) -> Self {
        Real(self.0 - rhs.0)
    }

    fn times(self, rhs: Self) -> Self {
        Real(self.0 * rhs.0)
    }

    fn over(self, rhs: Self) -> Self {
        Real(self.0 / rhs.0)
    }

    fn sqrt(self) -> Self {
        Real(self.0.sqrt())
    }

    fn exp(self) -> Self {
        Real(self.0.exp())
    }

    fn ln(self) -> Self {
        Real(self.0.ln())
    }

    fn sin(self) -> Self {
        Real(self.0.sin())
    }

    fn cos(self) -> Self {
        Real(self.0.cos())
    }

    fn powf(self, exponent: Self) -> Self {
        Real(self.0.powf(exponent.0))
    }

    fn exceeds(self, rhs: Self) -> bool {
        self.0 > rhs.0
    }
}

fn close(a: f64, b: f64) -> bool {
    (a - b).abs() <= 1e-9 * (1.0 + a.abs().max(b.abs()))
}

fn assert_cells<const R: usize, const C: usize>(m: &Matrix<Real>, expected: [[f64; C]; R]) {
    assert_eq!(m.rows(), R);
    assert_eq!(m.cols(), C);
    for i in 0..R {
        for j in 0..C {
            let Real(x) = m.get(i, j);
            assert!(close(x, expected[i][j]), "cell ({}, {}): {} is not {}", i, j, x, expected[i][j]);
        }
    }
}

fn assert_values<const N: usize>(values: &[Real], expected: [f64; N]) {
    assert_eq!(values.len(), N);
    for i in 0..N {
        assert!(close(values[i].0, expected[i]), "entry {}: {} is not {}", i, values[i].0, expected[i]);
    }
}

fn words(count: usize) -> Tokenizer {
    let mut tokenizer = Tokenizer::new();
    for word in ["between", "my", "finger", "and", "thumb"].iter().take(count) {
        tokenizer.intern(word.to_string());
    }
    tokenizer
}

#[test]
fn new_model_keeps_the_embedding_on_its_own_generator() {
    let model: Transformer<Real> = Transformer::new(1, 1, 0, 1);
    assert_eq!(model.embedding.embeddings.get(0, 0), Real(920370032.0 / 4294967296.0));
    assert_eq!(model.embedding.embeddings.get(0, 0), Real(0.2142903469502926));
    assert_eq!(model.output_layer.w1.get(0, 0), Real(-0.9372600977928713));

    let model: Transformer<Real> = Transformer::new(5, 8, 1, 2);
    let table: transformer::embedding::Embedding<Real> = transformer::embedding::Embedding::new(5, 8);
    for i in 0..5 {
        for j in 0..8 {
            assert_eq!(model.embedding.embeddings.get(i, j), table.embeddings.get(i, j));
        }
    }
}

#[test]
fn can_build_tells_whether_new_may_be_called() {
    assert!(Transformer::<Real>::can_build(5, 8, 2));
    assert!(Transformer::<Real>::can_build(0, 0, 1));
    assert!(!Transformer::<Real>::can_build(5, 8, 0));
    assert!(!Transformer::<Real>::can_build(5, 8, 3));
    assert!(!Transformer::<Real>::can_build(5, usize::MAX / 2, 1));
    assert!(!Transformer::<Real>::can_build(usize::MAX / 4, 8, 2));
}

#[test]
fn can_take_and_can_train_tell_which_windows_fit() {
    let model: Transformer<Real> = Transformer::new(5, 8, 1, 2);
    assert!(model.can_take(0));
    assert!(model.can_take(4));
    assert!(model.can_take(1000));
    assert!(!model.can_take(usize::MAX / 2));
    assert!(model.can_train(0));
    assert!(model.can_train(4));
    assert!(model.can_train(8));
    assert!(!model.can_train(9));

    let wide: Transformer<Real> = Transformer::new(1, 60, 0, 1);
    assert!(wide.can_train(1));
    assert!(wide.can_train(5));
    assert!(!wide.can_train(6));
    assert!(!wide.can_train(64));
    assert!(wide.can_train(65));

    let none: Transformer<Real> = Transformer::new(0, 4, 0, 1);
    assert!(none.can_take(3));
    assert!(!none.can_train(3));
}

#[test]
fn new_model_draws_its_weights_in_order() {
    let model: Transformer<Real> = Transformer::new(5, 8, 1, 2);
    assert_eq!(model.blocks.len(), 1);
    assert_eq!((model.embedding.vocab_size, model.embedding.embedding_dim), (5, 8));
    assert_eq!((model.output_layer.input_dim, model.output_layer.output_dim), (8, 5));
    let first: Vec<Real> = (0..8).map(|j| model.embedding.embeddings.get(0, j)).collect();
    assert_values(&first, [0.2142903469502926, 0.8758254086133093, 0.5243400414474308, 0.34355825767852366, 0.5449303174391389, 0.37270335550419986, 0.28888860112056136, 0.5348481752444059]);
    assert_eq!(model.blocks[0].attention.w_q.get(0, 0), Real(-0.9372600977928713));
    assert_eq!(model.blocks[0].feed_forward.w2.get(31, 7), Real(0.06466823662451104));
    assert_eq!(model.output_layer.w2.get(31, 4), Real(0.7364262485391253));
    assert_eq!(model.blocks[0].norm1.gamma, vec![Real(1.0); 8]);
    assert_eq!(model.blocks[0].norm2.beta, vec![Real(0.0); 8]);
    assert_eq!(model.output_layer.b2, vec![Real(0.0); 5]);
}

#[test]
fn forward_gives_one_row_of_logits_per_position() {
    let model: Transformer<Real> = Transformer::new(5, 8, 1, 2);
    let logits = model.forward(&[0, 1, 2, 3]);
    assert_cells(&logits, [
        [1.7880650360335917, 1.1212600528524286, -3.2911117924700353, -4.289698717560422, 5.483642418977965],
        [1.705184237184126, 1.4611846772123114, -4.3701470437682906, -3.720367731948389, 6.95838255844564],
        [1.9357782333510956, 0.9194473257254274, -4.7520733651260905, -3.575644418655763, 7.102052323978482],
        [1.9542749394063788, 1.2926873244202157, -5.34658764209469, -3.5346892678550184, 7.213711874017549],
    ]);
}

#[test]
fn forward_of_no_tokens_has_no_rows() {
    let model: Transformer<Real> = Transformer::new(5, 8, 1, 2);
    let logits = model.forward(&[]);
    assert_eq!((logits.rows(), logits.cols()), (0, 5));
}

#[test]
fn models_built_alike_give_the_same_logits() {
    let a: Transformer<Real> = Transformer::new(5, 8, 1, 2);
    let b: Transformer<Real> = Transformer::new(5, 8, 1, 2);
    let x = a.forward(&[3, 1, 4, 1]);
    let y = b.forward(&[3, 1, 4, 1]);
    for i in 0..4 {
        for j in 0..5 {
            assert_eq!(x.get(i, j).0.to_bits(), y.get(i, j).0.to_bits());
        }
    }
}

#[test]
fn train_returns_the_loss_and_steps_the_model() {
    let mut model: Transformer<Real> = Transformer::new(5, 8, 1, 2);
    let Real(first) = model.train(&[0, 1, 2, 3], &[1, 2, 3, 4], Real(0.01));
    assert!(first.is_finite() && first >= 0.0);
    assert!(close(first, 26.430670486191083));
    let Real(second) = model.train(&[0, 1, 2, 3], &[1, 2, 3, 4], Real(0.01));
    assert!(second.is_finite() && second >= 0.0);
    assert!(close(second, 7.872634013516537));
    assert!(second <= first);
    assert_cells(&model.forward(&[0, 1, 2, 3]), [
        [0.6733361855600328, -1.2372415036705138, -6.150023968113659, -1.739318854270691, 3.3686688366263997],
        [0.6733386351562356, -1.2372379418798727, -6.149993485652708, -1.7393161787003228, 3.3686671904706755],
        [0.6733409196970535, -1.2372342929561222, -6.149968948737641, -1.7393136388336428, 3.368666285534892],
        [0.6733451655399325, -1.2372270256091495, -6.149931935244236, -1.7393089542494355, 3.3686669087207806],
    ]);
}

#[test]
fn train_steps_the_rows_of_the_tokens_in_the_window() {
    let mut model: Transformer<Real> = Transformer::new(5, 8, 1, 2);
    let fresh: Transformer<Real> = Transformer::new(5, 8, 1, 2);
    model.train(&[0, 1, 2, 3], &[1, 2, 3, 4], Real(0.01));
    model.train(&[0, 1, 2, 3], &[1, 2, 3, 4], Real(0.01));
    let row: Vec<Real> = (0..8).map(|j| model.embedding.embeddings.get(0, j)).collect();
    assert_values(&row, [0.5987967504155771, 1.1446126978661626, 0.8384727676485638, -0.11231886707467637, 0.3157779234932857, 0.37057327039207755, 0.34455904907642443, 0.5821881226274075]);
    let row: Vec<Real> = (0..8).map(|j| model.embedding.embeddings.get(4, j)).collect();
    assert_values(&row, [0.5843458212912083, 0.4642527212854475, 0.4969656323082745, 0.9551859034691006, 0.05203987751156092, 0.9131829037796706, 0.008981829043477774, 0.7150565676856786]);
    for j in 0..8 {
        assert_eq!(model.embedding.embeddings.get(4, j), fresh.embedding.embeddings.get(4, j));
        assert_ne!(model.embedding.embeddings.get(0, j), fresh.embedding.embeddings.get(0, j));
    }
}

#[test]
fn train_takes_a_short_target_and_a_token_out_of_the_vocabulary() {
    let mut model: Transformer<Real> = Transformer::new(5, 8, 1, 2);
    let fresh: Transformer<Real> = Transformer::new(5, 8, 1, 2);
    let row: Vec<Real> = (0..8).map(|j| fresh.embedding.embeddings.get(2, j)).collect();
    assert_values(&row, [0.9780127853155136, 0.9675452781375498, 0.5401598778553307, 0.8567551171872765, 0.5475041242316365, 0.5384546376299113, 0.44176890095695853, 0.6159333542454988]);
    let Real(loss) = model.train(&[2, 2, 9], &[3], Real(0.01));
    assert!(close(loss, 11.808820706103567));
    let row: Vec<Real> = (0..8).map(|j| model.embedding.embeddings.get(2, j)).collect();
    assert_values(&row, [0.9708607513275124, 0.9626547303510496, 0.5487827929505789, 0.8460688655561709, 0.5413688393514794, 0.5466024706598913, 0.40677415148497, 0.6020704359848279]);
    for t in [0, 1, 3, 4] {
        for j in 0..8 {
            assert_eq!(model.embedding.embeddings.get(t, j), fresh.embedding.embeddings.get(t, j));
        }
    }
}

#[test]
fn train_steps_the_rows_of_positions_beyond_the_vocabulary_size() {
    let mut model: Transformer<Real> = Transformer::new(2, 4, 1, 2);
    let fresh: Transformer<Real> = Transformer::new(2, 4, 1, 2);
    assert_cells(&fresh.embedding.embeddings, [
        [0.2142903469502926, 0.8758254086133093, 0.5243400414474308, 0.34355825767852366],
        [0.5449303174391389, 0.37270335550419986, 0.28888860112056136, 0.5348481752444059],
    ]);
    let Real(loss) = model.train(&[0, 1, 1, 0], &[1, 1, 0, 0], Real(0.01));
    assert!(close(loss, 5.758564366509914));
    assert_cells(&model.embedding.embeddings, [
        [0.008076979024403026, 1.0165508738733169, 0.43271278947469227, 0.44133942817668137],
        [0.5498019598140618, 0.4446232963611567, 0.34550074989641816, 0.6950989177632643],
    ]);
}

#[test]
fn train_with_one_token_has_no_loss() {
    let mut model: Transformer<Real> = Transformer::new(1, 4, 1, 2);
    let Real(loss) = model.train(&[0, 0], &[0, 0], Real(0.01));
    assert_eq!(loss, 0.0);
    assert!(loss >= 0.0);
}

#[test]
fn train_returns_the_cross_entropy_of_the_logits_before_the_step() {
    let mut model: Transformer<Real> = Transformer::new(5, 8, 1, 2);
    let logits = model.forward(&[0, 1, 2, 3]);
    let target = [1, 2, 3, 4];
    let mut expected = 0.0;
    for i in 0..4 {
        let row: Vec<Real> = (0..5).map(|j| logits.get(i, j)).collect();
        let p = transformer::numeric::softmax(&row);
        expected -= p[target[i]].0.ln();
    }
    let Real(loss) = model.train(&[0, 1, 2, 3], &target, Real(0.01));
    assert_eq!(loss, expected);
}

#[test]
fn train_without_blocks() {
    let mut model: Transformer<Real> = Transformer::new(3, 2, 0, 1);
    assert_eq!(model.blocks.len(), 0);
    assert_cells(&model.forward(&[2, 0]), [
        [0.9292267627405534, -0.5679573862852006, -0.2666764387245324],
        [1.0683733592102969, -0.4289079307508198, -0.5392707531418671],
    ]);
    let Real(loss) = model.train(&[2, 0], &[0, 1], Real(0.1));
    assert!(close(loss, 2.273593451454194));
}

#[test]
fn train_with_two_blocks() {
    let mut model: Transformer<Real> = Transformer::new(4, 4, 2, 2);
    assert_cells(&model.forward(&[3, 1]), [
        [-4.811923583866407, -0.8839583026493216, -1.3763788351221444, -1.6325507641385242],
        [-4.790538304366794, -0.9435664236202899, -1.3967174785671606, -1.8376655994286855],
    ]);
    let Real(loss) = model.train(&[3, 1], &[1, 2], Real(0.01));
    assert!(close(loss, 1.9225116365168458));
    assert_cells(&model.forward(&[3, 1]), [
        [-4.8004887482075285, -0.9381113594219992, -1.3891583416356874, -1.7751892282089758],
        [-4.736360611874637, -1.0412458634512258, -1.4193632580074063, -2.136227440372081],
    ]);
}

#[test]
fn train_with_a_learning_rate_of_zero_keeps_the_logits() {
    let mut model: Transformer<Real> = Transformer::new(5, 8, 1, 2);
    let before = model.forward(&[0, 1, 2, 3]);
    let Real(first) = model.train(&[0, 1, 2, 3], &[1, 2, 3, 4], Real(0.0));
    let Real(second) = model.train(&[0, 1, 2, 3], &[1, 2, 3, 4], Real(0.0));
    assert_eq!(first, second);
    let after = model.forward(&[0, 1, 2, 3]);
    for i in 0..4 {
        for j in 0..5 {
            assert_eq!(before.get(i, j), after.get(i, j));
        }
    }
}

#[test]
fn predict_next_token_names_the_most_likely_token() {
    let model: Transformer<Real> = Transformer::new(5, 8, 1, 2);
    let tokenizer = words(5);
    assert_eq!(model.predict_next_token(&[0, 1, 2, 3], &tokenizer), "thumb");
}

#[test]
fn predict_next_token_with_one_token_returns_that_token() {
    let mut model: Transformer<Real> = Transformer::new(1, 4, 1, 2);
    let tokenizer = words(1);
    assert_eq!(model.predict_next_token(&[0], &tokenizer), "between");
    assert_eq!(model.predict_next_token(&[0, 0, 0], &tokenizer), "between");
    model.train(&[0, 0], &[0, 0], Real(0.01));
    assert_eq!(model.predict_next_token(&[0, 0], &tokenizer), "between");
}
